//! What the client knows of a lobby after each step, and what it tells the title of it.
use crate::assoc;
use crate::broker;
use crate::lobby_delta;
use crate::lobby_laws;
use crate::lobby_model;
use crate::lobby_model::{EntityView, LobbyView};
use crate::lobby_requests;
use crate::lobby_rows;
use crate::lobby_stage;
use crate::lobby_stage::{LobbyChangeView, Stage};
use crate::lobby_update;
use crate::lobby_update::{DataUpdate, MemberData};
use crate::text;
use vstd::prelude::*;

verus! {

// Values that the title changes

/// The last value that a list of changes gives a name.
pub open spec fn last_given(v: Seq<(Seq<char>, Option<Seq<char>>)>, key: Seq<char>) -> Option<
    Seq<char>,
>
    decreases v.len(),
{
    if v.len() == 0 {
        None
    } else if v.last().0 == key && v.last().1 is Some {
        v.last().1
    } else {
        last_given(v.drop_last(), key)
    }
}

/// A list of changes has a name without a value.
pub open spec fn takes_away(v: Seq<(Seq<char>, Option<Seq<char>>)>, key: Seq<char>) -> bool {
    exists|i: int| 0 <= i < v.len() && (#[trigger] v[i]).0 == key && v[i].1 is None
}

proof fn lemma_sets(v: Seq<(Seq<char>, Option<Seq<char>>)>, key: Seq<char>)
    requires
        key.len() > 0,
    ensures
        assoc::lookup(lobby_update::sets_in(v), key) == last_given(v, key),
    decreases v.len(),
{
    if v.len() > 0 {
        lemma_sets(v.drop_last(), key);
        if let Some(t) = v.last().1 {
            assoc::set_is_found(lobby_update::sets_in(v.drop_last()), v.last().0, t, key);
        }
    }
}

proof fn lemma_deletes(v: Seq<(Seq<char>, Option<Seq<char>>)>, key: Seq<char>)
    requires
        key.len() > 0,
    ensures
        lobby_update::deletes_in(v).contains(key) <==> takes_away(v, key),
    decreases v.len(),
{
    let all = lobby_update::deletes_in(v);
    if v.len() > 0 {
        let t = v.drop_last();
        let rest = lobby_update::deletes_in(t);
        lemma_deletes(t, key);
        if takes_away(v, key) {
            let i = choose|i: int| 0 <= i < v.len() && (#[trigger] v[i]).0 == key && v[i].1 is None;
            if i < t.len() {
                assert(t[i] == v[i]);
                let k = choose|k: int| 0 <= k < rest.len() && rest[k] == key;
                assert(all[k] == key);
            } else {
                assert(all[rest.len() as int] == key);
            }
        }
        if all.contains(key) {
            let k = choose|k: int| 0 <= k < all.len() && all[k] == key;
            if k < rest.len() {
                assert(rest[k] == key);
                assert(takes_away(t, key));
                let i = choose|i: int|
                    0 <= i < t.len() && (#[trigger] t[i]).0 == key && t[i].1 is None;
                assert(v[i] == t[i]);
            } else {
                assert(v[v.len() - 1].0 == key);
            }
        }
    }
}

/// Values after a list of changes: a name that it has without a value is gone, else a name has the
/// last value that the list gives it, else the value that it had.
pub open spec fn is_changed_by(
    before: Seq<(Seq<char>, Seq<char>)>,
    after: Seq<(Seq<char>, Seq<char>)>,
    v: Seq<(Seq<char>, Option<Seq<char>>)>,
    key: Seq<char>,
) -> bool {
    let told = last_given(v, key);
    &&& takes_away(v, key) ==> assoc::lookup(after, key) is None
    &&& !takes_away(v, key) && told is Some && !told->0.contains('\0') ==> assoc::lookup(after, key)
        == told
    &&& !takes_away(v, key) && told is None ==> assoc::lookup(after, key) == assoc::lookup(
        before,
        key,
    )
}

proof fn lemma_changed(
    m: Seq<(Seq<char>, Seq<char>)>,
    v: Seq<(Seq<char>, Option<Seq<char>>)>,
    key: Seq<char>,
)
    requires
        assoc::distinct(m),
        key.len() > 0,
        v.len() <= 32,
    ensures
        ({
            let after = lobby_model::dropping(
                lobby_model::setting(m, lobby_update::listed_sets(v)),
                lobby_update::listed_deletes(v),
            );
            is_changed_by(m, after, v, key) && assoc::distinct(after)
        }),
{
    lemma_sets(v, key);
    lemma_deletes(v, key);
    let sets = lobby_update::sets_in(v);
    lobby_update::lemma_sets_distinct(v);
    lobby_update::lemma_last_value(sets, key);
    lobby_update::lemma_setting_lookup(m, sets, key);
    lobby_update::lemma_setting_distinct(m, sets);
    lobby_update::lemma_dropping(
        lobby_model::setting(m, sets),
        lobby_update::deletes_in(v),
        key,
    );
}

/// An update changes the properties of the lobby and its search properties, each by its own list.
pub proof fn posted_changes_are_made(l: LobbyView, u: DataUpdate, key: Seq<char>)
    requires
        assoc::distinct(l.props),
        assoc::distinct(l.search),
        key.len() > 0,
        u.props@.len() <= 32,
        u.search@.len() <= 32,
    ensures
        is_changed_by(
            l.props,
            lobby_update::with_data(l, u).props,
            lobby_update::option_pairs(u.props@),
            key,
        ),
        is_changed_by(
            l.search,
            lobby_update::with_data(l, u).search,
            lobby_update::option_pairs(u.search@),
            key,
        ),
{
    lemma_changed(l.props, lobby_update::option_pairs(u.props@), key);
    lemma_changed(l.search, lobby_update::option_pairs(u.search@), key);
}

/// An update changes the owner, the number of players, the access and the lock where it gives
/// them, and leaves them where it does not. It asks the broker for just that.
pub proof fn posted_settings_are_made(
    l: LobbyView,
    u: DataUpdate,
    values: Option<MemberData>,
    member: Option<EntityView>,
    local: Seq<char>,
)
    ensures
        ({
            let after = lobby_update::with_update(l, Some(u), values, member, local);
            let asked = lobby_update::asked_update(Some(u), values, member, local);
            &&& after.max_players == (if u.max_players is Some {
                u.max_players->0
            } else {
                l.max_players
            })
            &&& after.membership_lock == (if u.membership_lock is Some {
                u.membership_lock->0
            } else {
                l.membership_lock
            })
            &&& u.access_policy is None ==> after.access_policy == l.access_policy
            &&& u.access_policy is Some && u.access_policy->0 >= 0 ==> after.access_policy
                == u.access_policy->0
            &&& u.owner is None ==> after.owner == l.owner && after.has_owner == l.has_owner
            &&& u.owner is Some && u.owner->0.id@.len() > 0 && !u.owner->0.id@.contains('\0')
                ==> after.owner.id == u.owner->0.id@ && after.has_owner
            &&& after.id == l.id && after.connection == l.connection && after.members == l.members
            &&& asked.max_players == u.max_players
            &&& asked.membership_lock == u.membership_lock
            &&& asked.access_policy is Some <==> u.access_policy is Some
            &&& asked.access_policy is Some ==> asked.access_policy->0 == after.access_policy
            &&& asked.owner is Some ==> asked.owner->0 == after.owner
            &&& u.owner is None ==> asked.owner is None
        }),
{
}

/// What an update asks the broker to remove is what it removes, and nothing is removed without it
/// being asked.
pub proof fn removals_are_asked_for(
    u: DataUpdate,
    values: Option<MemberData>,
    member: Option<EntityView>,
    local: Seq<char>,
    key: Seq<char>,
)
    requires
        key.len() > 0,
        u.props@.len() <= 32,
        u.search@.len() <= 32,
    ensures
        ({
            let asked = lobby_update::asked_update(Some(u), values, member, local);
            &&& asked.lobby_delete.contains(key) <==> takes_away(
                lobby_update::option_pairs(u.props@),
                key,
            )
            &&& asked.search_delete.contains(key) <==> takes_away(
                lobby_update::option_pairs(u.search@),
                key,
            )
        }),
{
    lemma_deletes(lobby_update::option_pairs(u.props@), key);
    lemma_deletes(lobby_update::option_pairs(u.search@), key);
}

/// The data that the client keeps of a participant has a platform, an account in decimal digits
/// and a name; what was given as such stays, and so does everything else.
pub proof fn kept_member_is_described(
    m: Seq<(Seq<char>, Seq<char>)>,
    id: Seq<char>,
    key: Seq<char>,
)
    ensures
        ({
            let f = lobby_model::ensured(m, id);
            let platform = assoc::lookup(m, "member_platform"@);
            let account = assoc::lookup(m, "member_platform_account_id"@);
            &&& !lobby_laws::is_description(key) ==> assoc::lookup(f, key) == assoc::lookup(m, key)
            &&& assoc::lookup(f, "member_platform"@) matches Some(p) && p.len() > 0 && p != "1"@
            &&& platform is Some && platform->0.len() > 0 && platform->0 != "1"@ ==> assoc::lookup(
                f,
                "member_platform"@,
            ) == platform
            &&& assoc::lookup(f, "member_platform_account_id"@) matches Some(d) && text::is_number(d)
            &&& account is Some && text::is_number(account->0) ==> assoc::lookup(
                f,
                "member_platform_account_id"@,
            ) == account
            &&& account is None && text::is_number(id) ==> assoc::lookup(
                f,
                "member_platform_account_id"@,
            ) == Some(id)
            &&& assoc::lookup(m, "member_platform_user_name"@) is Some ==> assoc::lookup(
                f,
                "member_platform_user_name"@,
            ) == assoc::lookup(m, "member_platform_user_name"@)
            &&& assoc::lookup(m, "member_platform_user_name"@) is None ==> assoc::lookup(
                f,
                "member_platform_user_name"@,
            ) == Some("LAN"@)
            &&& assoc::distinct(m) ==> assoc::distinct(f)
        }),
{
    lobby_laws::lemma_description_names();
    lobby_laws::lemma_account(id);
    let p = "member_platform"@;
    let d = "member_platform_account_id"@;
    let u = "member_platform_user_name"@;
    reveal_strlit("Steam");
    reveal_strlit("1");
    assert("Steam"@.len() != "1"@.len());
    let platform = lobby_model::value_or_empty(m, p);
    let a = if platform.len() == 0 || platform == "1"@ { assoc::with(m, p, "Steam"@) } else { m };
    assoc::set_is_found(m, p, "Steam"@, key);
    assoc::set_is_found(m, p, "Steam"@, d);
    assoc::set_is_found(m, p, "Steam"@, u);
    let account = lobby_model::value_or_empty(a, d);
    let t = if broker::is_account_id(account) { account } else { broker::account_id(id) };
    let b = assoc::with(a, d, t);
    assoc::set_is_found(a, d, t, key);
    assoc::set_is_found(a, d, t, p);
    assoc::set_is_found(a, d, t, u);
    assoc::set_is_found(b, u, "LAN"@, key);
    assoc::set_is_found(b, u, "LAN"@, p);
    assoc::set_is_found(b, u, "LAN"@, d);
}

/// A participant's values change as the title wants it: those of the participant that the change
/// names, else of the one that asks, else of the local one. Nobody else's change.
pub proof fn posted_member_changes_are_made(
    l: LobbyView,
    u: MemberData,
    member: Option<EntityView>,
    local: Seq<char>,
    id: Seq<char>,
    key: Seq<char>,
    other: Seq<char>,
)
    requires
        u.values@.len() <= 32,
        lobby_update::changed_member(u, member, local) == Some(id),
        assoc::distinct(lobby_delta::bag_or_none(l.member_props, id)),
        key.len() > 0,
        !lobby_laws::is_description(key),
    ensures
        ({
            let after = lobby_update::with_member(l, u, member, local);
            let known = assoc::lookup(after.member_props, id);
            &&& known is Some
            &&& is_changed_by(
                lobby_delta::bag_or_none(l.member_props, id),
                known->0,
                lobby_update::option_pairs(u.values@),
                key,
            )
            &&& other != id ==> assoc::lookup(after.member_props, other) == assoc::lookup(
                l.member_props,
                other,
            )
            &&& u.member is Some && u.member->0.id@.len() > 0 ==> id == u.member->0.id@
            &&& u.member is None && member is None ==> id == local
            &&& u.member is None && member is Some && member->0.id.len() > 0 ==> id
                == member->0.id
        }),
{
    let v = lobby_update::option_pairs(u.values@);
    let bag = lobby_delta::bag_or_none(l.member_props, id);
    lemma_changed(bag, v, key);
    let m = lobby_model::dropping(
        lobby_model::setting(bag, lobby_update::listed_sets(v)),
        lobby_update::listed_deletes(v),
    );
    kept_member_is_described(m, id, key);
    assoc::set_is_found(l.member_props, id, lobby_model::ensured(m, id), other);
    assoc::set_is_found(l.member_props, id, lobby_model::ensured(m, id), id);
}

// What a new look changes

/// Of the values that the broker tells anew each stands; what was known before stands only where
/// the broker tells nothing.
pub proof fn known_values_fill_the_gaps(
    m: Seq<(Seq<char>, Seq<char>)>,
    v: Seq<(Seq<char>, Seq<char>)>,
    key: Seq<char>,
)
    requires
        assoc::distinct(v),
    ensures
        assoc::lookup(lobby_delta::filling(m, v), key) == (if assoc::lookup(m, key) is Some {
            assoc::lookup(m, key)
        } else {
            assoc::lookup(v, key)
        }),
    decreases v.len(),
{
    assoc::lemma_place(v, key);
    if v.len() > 0 {
        let t = v.drop_last();
        known_values_fill_the_gaps(m, t, key);
        known_values_fill_the_gaps(m, t, v.last().0);
        assoc::lemma_place(t, key);
        assoc::lemma_place(t, v.last().0);
        let sofar = lobby_delta::filling(m, t);
        assoc::lemma_place(sofar, v.last().0);
        if assoc::lookup(sofar, v.last().0) is None {
            assert(sofar.push(v.last()) =~= assoc::with(sofar, v.last().0, v.last().1));
            assoc::set_is_found(sofar, v.last().0, v.last().1, key);
        }
        if let Some(i) = assoc::place(t, v.last().0) {
            assert(v[i].0 == v[v.len() - 1].0);
        }
        if v.last().0 == key {
            assoc::lemma_place_is(v, key, v.len() - 1);
        } else if let Some(i) = assoc::place(t, key) {
            assoc::lemma_place_is(v, key, i);
        } else if let Some(i) = assoc::place(v, key) {
            assert(t[i] == v[i]);
        }
    }
}

/// After a new look a lobby has the properties, the owner, the number of players, the access and
/// the lock that the broker tells; it keeps its name, its number and what the title was told.
pub proof fn new_look_is_taken_over(l: LobbyView, fresh: LobbyView)
    ensures
        ({
            let r = lobby_delta::refreshed(l, fresh);
            &&& r.props == fresh.props && r.search == fresh.search
            &&& r.owner == fresh.owner && r.has_owner == fresh.has_owner
            &&& r.max_players == fresh.max_players && r.access_policy == fresh.access_policy
            &&& r.membership_lock == fresh.membership_lock && r.connection == fresh.connection
            &&& r.id == l.id && r.number == l.number && r.announced == l.announced
            &&& r.pending == l.pending && r.left == l.left && r.polled == l.polled
            &&& fresh.members.len() > 0 ==> r.members == fresh.members
            &&& fresh.members.len() == 0 ==> r.members == l.members
        }),
{
    if fresh.members.len() == 0 && l.members.len() == 0 {
        assert(fresh.members =~= l.members);
    }
}

/// The client tells of a change of the owner, the number of players, the access or the lock
/// exactly where there is one.
pub proof fn changes_of_settings_are_told(before: LobbyView, after: LobbyView)
    ensures
        ({
            let d = lobby_delta::delta_of(before, after);
            &&& before.owner != after.owner ==> d.owner
            &&& before.owner == after.owner && before.has_owner == after.has_owner ==> !d.owner
            &&& d.max_players <==> before.max_players != after.max_players
            &&& d.access_policy <==> before.access_policy != after.access_policy
            &&& d.membership_lock <==> before.membership_lock != after.membership_lock
        }),
{
}

/// The names under which a property or a search property changed are told, each list by itself.
pub proof fn changes_of_values_are_told(before: LobbyView, after: LobbyView, key: Seq<char>)
    requires
        assoc::distinct(before.props),
        assoc::distinct(after.props),
        assoc::distinct(before.search),
        assoc::distinct(after.search),
    ensures
        lobby_delta::delta_of(before, after).lobby_keys.contains(key) <==> assoc::lookup(
            before.props,
            key,
        ) != assoc::lookup(after.props, key),
        lobby_delta::delta_of(before, after).search_keys.contains(key) <==> assoc::lookup(
            before.search,
            key,
        ) != assoc::lookup(after.search, key),
{
    lobby_delta::only_changes_are_told(before.props, after.props, key);
    lobby_delta::only_changes_are_told(before.search, after.search, key);
}

/// Each participant who is new is told as new, once, and each whose values changed is told with
/// the names that changed.
pub proof fn changes_of_members_are_told(
    before: Seq<(Seq<char>, Seq<(Seq<char>, Seq<char>)>)>,
    after: Seq<(Seq<char>, Seq<(Seq<char>, Seq<char>)>)>,
    members: Seq<EntityView>,
    i: int,
    key: Seq<char>,
)
    requires
        0 <= i < after.len(),
        assoc::distinct(after[i].1),
        assoc::distinct(lobby_delta::bag_or_none(before, after[i].0)),
        assoc::lookup(before, after[i].0) is None || assoc::lookup(
            lobby_delta::bag_or_none(before, after[i].0),
            key,
        ) != assoc::lookup(after[i].1, key),
    ensures
        exists|j: int|
            0 <= j < lobby_delta::member_changes(before, after, members).len() && ({
                let u = #[trigger] lobby_delta::member_changes(before, after, members)[j];
                &&& u.member == lobby_delta::entity_for(members, after[i].0)
                &&& u.connected <==> assoc::lookup(before, after[i].0) is None
                &&& u.keys.contains(key) <==> assoc::lookup(
                    lobby_delta::bag_or_none(before, after[i].0),
                    key,
                ) != assoc::lookup(after[i].1, key)
            }),
    decreases after.len(),
{
    let t = after.drop_last();
    let sofar = lobby_delta::member_changes(before, t, members);
    let all = lobby_delta::member_changes(before, after, members);
    if i < t.len() {
        assert(t[i] == after[i]);
        changes_of_members_are_told(before, t, members, i, key);
        let j = choose|j: int|
            0 <= j < sofar.len() && ({
                let u = #[trigger] sofar[j];
                &&& u.member == lobby_delta::entity_for(members, after[i].0)
                &&& u.connected <==> assoc::lookup(before, after[i].0) is None
                &&& u.keys.contains(key) <==> assoc::lookup(
                    lobby_delta::bag_or_none(before, after[i].0),
                    key,
                ) != assoc::lookup(after[i].1, key)
            });
        assert(all[j] == sofar[j]);
    } else {
        let (id, bag) = after[i];
        lobby_delta::only_changes_are_told(lobby_delta::bag_or_none(before, id), bag, key);
        let keys = lobby_delta::changed_names(lobby_delta::bag_or_none(before, id), bag);
        if assoc::lookup(before, id) is Some {
            assert(keys.contains(key));
        }
        assert(all[sofar.len() as int].keys == keys);
    }
}

/// A participant who is told with its identifier is the one who is meant.
pub proof fn told_member_is_meant(members: Seq<EntityView>, id: Seq<char>)
    requires
        !id.contains('\0'),
    ensures
        lobby_delta::entity_for(members, id).id == id,
{
    lemma_entity_place(members, id);
}

proof fn lemma_entity_place(v: Seq<EntityView>, id: Seq<char>)
    ensures
        match lobby_delta::entity_place(v, id) {
            Some(i) => 0 <= i < v.len() && v[i].id == id,
            None => forall|i: int| 0 <= i < v.len() ==> (#[trigger] v[i]).id != id,
        },
    decreases v.len(),
{
    if v.len() > 0 && v[0].id != id {
        let t = v.drop_first();
        lemma_entity_place(t, id);
        assert forall|i: int| 0 < i < v.len() implies v[i] == t[i - 1] by {}
    }
}

/// Whoever the title was told of and who is not in the lobby any more has departed, and nobody
/// else.
pub proof fn only_the_missing_have_departed(
    announced: Seq<Seq<char>>,
    members: Seq<EntityView>,
    id: Seq<char>,
)
    ensures
        lobby_delta::departed(announced, members).contains(id) <==> announced.contains(id) && (
        forall|i: int| 0 <= i < members.len() ==> (#[trigger] members[i]).id != id),
    decreases announced.len(),
{
    let all = lobby_delta::departed(announced, members);
    lemma_entity_place(members, id);
    if announced.len() > 0 {
        let t = announced.drop_last();
        let rest = lobby_delta::departed(t, members);
        only_the_missing_have_departed(t, members, id);
        lemma_entity_place(members, announced.last());
        if announced.contains(id) && lobby_delta::entity_place(members, id) is None {
            let i = choose|i: int| 0 <= i < announced.len() && announced[i] == id;
            if i < t.len() {
                assert(t[i] == id);
                assert(rest.contains(id));
                let k = choose|k: int| 0 <= k < rest.len() && rest[k] == id;
                assert(all[k] == id);
            } else {
                assert(all[rest.len() as int] == id);
            }
        }
        if all.contains(id) {
            let k = choose|k: int| 0 <= k < all.len() && all[k] == id;
            if k < rest.len() {
                assert(rest[k] == id);
                assert(rest.contains(id));
                let i = choose|i: int| 0 <= i < t.len() && t[i] == id;
                assert(announced[i] == id);
            } else {
                assert(announced[announced.len() - 1] == id);
            }
        }
    }
}

// What the title is told

/// A participant whom the title can be told of.
pub open spec fn is_tellable(m: EntityView) -> bool {
    m.id.len() > 0 && m.id != "owner"@
}

/// The title is told of a participant whom it does not know yet, and not again of one that it
/// knows; either way it knows the participant from then on.
pub proof fn arrival_is_told(s: Stage, m: EntityView)
    requires
        is_tellable(m),
    ensures
        ({
            let t = lobby_stage::announcing(s, m);
            &&& t.lobby.announced.contains(m.id)
            &&& !s.lobby.announced.contains(m.id) ==> t.out == s.out.push(
                LobbyChangeView::MemberAdded { lobby: s.lobby.number, member: m },
            )
            &&& s.lobby.announced.contains(m.id) ==> t == s
        }),
{
    let t = lobby_stage::announcing(s, m);
    if !s.lobby.announced.contains(m.id) {
        assert(t.lobby.announced[s.lobby.announced.len() as int] == m.id);
    }
}

proof fn lemma_announced_stay(s: Stage, m: EntityView, id: Seq<char>)
    requires
        s.lobby.announced.contains(id),
    ensures
        lobby_stage::announcing(s, m).lobby.announced.contains(id),
{
    let i = choose|i: int| 0 <= i < s.lobby.announced.len() && s.lobby.announced[i] == id;
    assert(lobby_stage::announcing(s, m).lobby.announced[i] == id);
}

proof fn lemma_each_announced(s: Stage, members: Seq<EntityView>, i: int)
    requires
        0 <= i < members.len(),
        is_tellable(members[i]),
    ensures
        lobby_stage::announcing_each(s, members).lobby.announced.contains(members[i].id),
    decreases members.len(),
{
    let t = members.drop_last();
    let before = lobby_stage::announcing_each(s, t);
    if i < t.len() {
        lemma_each_announced(s, t, i);
        lemma_announced_stay(before, members.last(), members[i].id);
    } else {
        arrival_is_told(before, members[i]);
    }
}

/// When the title is told of everybody, it knows everybody who takes part.
pub proof fn everybody_is_told(s: Stage, i: int)
    requires
        0 <= i < s.lobby.members.len(),
        is_tellable(s.lobby.members[i]),
    ensures
        lobby_stage::announcing_all(s).lobby.announced.contains(s.lobby.members[i].id),
{
    let first = lobby_stage::announcing(s, s.lobby.owner);
    lemma_each_announced(first, s.lobby.members, i);
}

/// The title is told of each participant who is gone, in order, and does not know any of them
/// afterwards.
pub proof fn departures_are_told(s: Stage, gone: Seq<Seq<char>>, i: int)
    requires
        0 <= i < gone.len(),
        !gone[i].contains('\0'),
    ensures
        ({
            let t = lobby_stage::removing(s, gone);
            &&& t.out.len() == s.out.len() + gone.len()
            &&& t.out[s.out.len() + i] == (LobbyChangeView::MemberRemoved {
                lobby: s.lobby.number,
                member: EntityView { id: gone[i], kind: "title_player_account"@ },
            })
            &&& t.out.take(s.out.len() as int) == s.out
            &&& !t.lobby.announced.contains(gone[i])
        }),
    decreases gone.len(),
{
    let t = gone.drop_last();
    let before = lobby_stage::removing(s, t);
    let after = lobby_stage::removing(s, gone);
    lemma_removing_len(s, t);
    lemma_without_text(before.lobby.announced, gone.last(), gone[i]);
    if i < t.len() {
        departures_are_told(s, t, i);
        assert(after.out[s.out.len() + i] == before.out[s.out.len() + i]);
    }
    assert(after.out.take(s.out.len() as int) =~= s.out) by {
        assert(before.out.take(s.out.len() as int) =~= s.out);
        assert(after.out.take(s.out.len() as int) =~= before.out.take(s.out.len() as int));
    }
}

proof fn lemma_removing_len(s: Stage, gone: Seq<Seq<char>>)
    ensures
        lobby_stage::removing(s, gone).out.len() == s.out.len() + gone.len(),
        lobby_stage::removing(s, gone).out.take(s.out.len() as int) == s.out,
    decreases gone.len(),
{
    if gone.len() > 0 {
        lemma_removing_len(s, gone.drop_last());
        let before = lobby_stage::removing(s, gone.drop_last());
        let after = lobby_stage::removing(s, gone);
        assert(after.out.take(s.out.len() as int) =~= before.out.take(s.out.len() as int));
    } else {
        assert(s.out.take(s.out.len() as int) =~= s.out);
    }
}

proof fn lemma_without_text(v: Seq<Seq<char>>, t: Seq<char>, x: Seq<char>)
    ensures
        lobby_stage::without_text(v, t).contains(x) <==> v.contains(x) && x != t,
    decreases v.len(),
{
    let all = lobby_stage::without_text(v, t);
    if v.len() > 0 {
        let w = v.drop_last();
        let rest = lobby_stage::without_text(w, t);
        lemma_without_text(w, t, x);
        if v.contains(x) && x != t {
            let i = choose|i: int| 0 <= i < v.len() && v[i] == x;
            if i < w.len() {
                assert(w[i] == x);
                let k = choose|k: int| 0 <= k < rest.len() && rest[k] == x;
                assert(all[k] == x);
            } else {
                assert(all[rest.len() as int] == x);
            }
        }
        if all.contains(x) {
            let k = choose|k: int| 0 <= k < all.len() && all[k] == x;
            if k < rest.len() {
                assert(rest[k] == x);
                assert(rest.contains(x));
                let i = choose|i: int| 0 <= i < w.len() && w[i] == x;
                assert(v[i] == x);
            } else {
                assert(v[v.len() - 1] == x);
            }
        }
    }
}

/// Whoever joins takes part, with the values that it brought, and the others stay.
pub proof fn joiner_takes_part(
    l: LobbyView,
    joiner: EntityView,
    member: Seq<(Seq<char>, Seq<char>)>,
    key: Seq<char>,
    other: Seq<char>,
)
    requires
        assoc::distinct(member),
        !lobby_laws::is_description(key),
    ensures
        ({
            let r = lobby_stage::with_joiner(l, joiner, member);
            let known = assoc::lookup(r.member_props, joiner.id);
            let told = assoc::lookup(member, key);
            &&& exists|i: int| 0 <= i < r.members.len() && (#[trigger] r.members[i]).id == joiner.id
            &&& l.members.is_prefix_of(r.members)
            &&& r.members.len() <= l.members.len() + 1
            &&& known is Some
            &&& told is None ==> assoc::lookup(known->0, key) is None
            &&& told is Some && !told->0.contains('\0') ==> assoc::lookup(known->0, key) == told
            &&& other != joiner.id ==> assoc::lookup(r.member_props, other) == assoc::lookup(
                l.member_props,
                other,
            )
        }),
{
    let r = lobby_stage::with_joiner(l, joiner, member);
    lemma_entity_place(l.members, joiner.id);
    match lobby_delta::entity_place(l.members, joiner.id) {
        Some(i) => {
            assert(r.members[i].id == joiner.id);
        },
        None => {
            assert(r.members[l.members.len() as int] == joiner);
        },
    }
    let m = lobby_model::setting(Seq::empty(), member);
    lobby_update::lemma_last_value(member, key);
    lobby_update::lemma_setting_lookup(Seq::empty(), member, key);
    kept_member_is_described(m, joiner.id, key);
    let v = lobby_model::member_values(joiner.id, member);
    assoc::set_is_found(l.member_props, joiner.id, v, other);
    assoc::set_is_found(l.member_props, joiner.id, v, joiner.id);
}

/// An update ends with the news that it has ended; a change is told only behind that and only where
/// the broker granted it.
pub proof fn update_ends_with_its_news(
    s: Stage,
    r: Option<(u16, Seq<char>)>,
    user: Option<EntityView>,
    context: u64,
    delta: lobby_delta::DeltaView,
)
    ensures
        ({
            let t = lobby_stage::completing_update(s, r, user, context, delta);
            let n = s.out.len() as int;
            let ended = LobbyChangeView::PostUpdateCompleted {
                lobby: s.lobby.number,
                user,
                context,
            };
            let granted = r matches Some(p) && p.0 == 200;
            &&& t.out.len() > n && t.out[n] == ended
            &&& !granted ==> t.out == s.out.push(ended)
            &&& granted && (delta.max_players || delta.owner || delta.lobby_keys.len() > 0
                || delta.search_keys.len() > 0) ==> t.out.len() == n + 2 && (t.out[n + 1] matches
                LobbyChangeView::Updated { lobby, delta: d } && lobby == s.lobby.number
                && d.max_players == delta.max_players && d.owner == delta.owner && d.lobby_keys
                == delta.lobby_keys && d.search_keys == delta.search_keys && d.members
                == delta.members && d.access_policy == delta.access_policy)
        }),
{
}

// Rows of a search

/// A row that tells of a lobby tells of it as a look at it does.
pub proof fn row_tells_of_the_lobby(t: Seq<char>, number: u64)
    requires
        lobby_model::told_lobby(t, number) is Some,
    ensures
        ({
            let l = lobby_model::told_lobby(t, number)->0;
            let row = lobby_rows::row_of(t);
            &&& row.id == l.id
            &&& row.connection == l.connection || row.connection.len() == 0
            &&& row.max_member == l.max_players
            &&& l.number == number
            &&& l.has_owner && row.owner is Some ==> row.owner->0.id == l.owner.id
            &&& l.has_owner ==> row.owner is Some
        }),
{
}

/// The rows of a search are given in their order, the first sixteen of them; at least one takes
/// part in the lobby of a row, and not more than can.
pub proof fn rows_are_given_in_order(v: Seq<Seq<char>>, i: int)
    requires
        0 <= i < v.len(),
    ensures
        lobby_rows::rows_of(v).len() == (if v.len() < 16 { v.len() } else { 16 }),
        i < 16 ==> lobby_rows::rows_of(v)[i] == lobby_rows::row_of(v[i]),
{
}

// Replies

/// A reply of success is no error, and every other one is; each reason that the broker names is
/// told apart.
pub proof fn replies_are_told_apart(status: u16, body: Seq<char>)
    ensures
        lobby_requests::reply_code(Some((200, body))) == 0,
        status != 200 ==> lobby_requests::reply_code(Some((status, body))) != 0,
        lobby_requests::reply_code(None) != 0,
        lobby_requests::holds(body, "LobbyNotFound"@) ==> lobby_requests::error_code(status, body)
            == lobby_requests::error_code(404, Seq::empty()),
        !lobby_requests::holds(body, "LobbyNotFound"@) && lobby_requests::holds(
            body,
            "LobbyMemberLimitExceeded"@,
        ) ==> lobby_requests::error_code(status, body) != lobby_requests::error_code(
            404,
            Seq::empty(),
        ),
{
    lemma_holds_nothing();
}

proof fn lemma_holds_nothing()
    ensures
        lobby_requests::error_code(404, Seq::empty()) == lobby_requests::E_PF_LOBBY_NOT_FOUND,
{
    reveal_strlit("LobbyNotFound");
    reveal_strlit("LobbyMemberLimitExceeded");
    reveal_strlit("PartyMemberLimitExceeded");
    reveal_strlit("LobbyNotJoinable");
    reveal_strlit("LobbyPlayerAlreadyJoined");
    reveal_strlit("LobbyAlreadyMember");
    assert("LobbyNotFound"@.len() == 13 && "LobbyMemberLimitExceeded"@.len() == 24
        && "PartyMemberLimitExceeded"@.len() == 24 && "LobbyNotJoinable"@.len() == 16
        && "LobbyPlayerAlreadyJoined"@.len() == 24 && "LobbyAlreadyMember"@.len() == 18);
}

}
