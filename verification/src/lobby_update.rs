//! What the title changes of a lobby, and what it reads of one.
use crate::assoc;
use crate::lobby_delta;
use crate::lobby_model;
use crate::lobby_model::{Bag, Entity, EntityView, Lobby, LobbyView};
use crate::lobby_requests;
use crate::lobby_requests::{Scalars, Update, UpdateView};
use crate::scan;
use crate::text;
use vstd::prelude::*;

verus! {

/// The most entries that a list of the title may have; a longer one is refused whole.
pub const LIST_CAP: usize = 32;

pub open spec fn option_pairs(v: Seq<(String, Option<String>)>) -> Seq<
    (Seq<char>, Option<Seq<char>>),
> {
    v.map_values(|e: (String, Option<String>)| (e.0@, scan::opt_text(e.1)))
}

/// A list of the title as values: nameless entries do not count, and of two under a name the
/// later one does.
pub open spec fn values_in(v: Seq<(Seq<char>, Seq<char>)>) -> Seq<(Seq<char>, Seq<char>)>
    decreases v.len(),
{
    if v.len() == 0 {
        Seq::empty()
    } else if v.last().0.len() == 0 {
        values_in(v.drop_last())
    } else {
        assoc::with(values_in(v.drop_last()), v.last().0, v.last().1)
    }
}

/// A list of the title as values.
pub open spec fn listed(v: Seq<(Seq<char>, Seq<char>)>) -> Seq<(Seq<char>, Seq<char>)> {
    if v.len() > LIST_CAP { Seq::empty() } else { values_in(v) }
}

/// Reads a list of the title.
pub fn kv_list(v: &Vec<(String, String)>) -> (r: Vec<(String, String)>)
    ensures
        assoc::pairs(r@) == listed(assoc::pairs(v@)),
{
    let ghost all = assoc::pairs(v@);
    let mut r: Vec<(String, String)> = Vec::new();
    assert(assoc::pairs(r@) =~= Seq::empty());
    if v.len() > LIST_CAP {
        return r;
    }
    let mut i: usize = 0;
    assert(all.take(0) =~= Seq::empty());
    while i < v.len()
        invariant
            i <= v@.len(),
            all == assoc::pairs(v@),
            assoc::pairs(r@) == values_in(all.take(i as int)),
        decreases v@.len() - i,
    {
        assert(all.take(i + 1).drop_last() =~= all.take(i as int));
        assert(all[i as int] == (v@[i as int].0@, v@[i as int].1@));
        if !text::is_empty(v[i].0.as_str()) {
            assoc::put(&mut r, v[i].0.as_str(), v[i].1.clone());
        }
        i += 1;
    }
    assert(all.take(i as int) =~= all);
    r
}

/// The values that a list of changes sets.
pub open spec fn sets_in(v: Seq<(Seq<char>, Option<Seq<char>>)>) -> Seq<(Seq<char>, Seq<char>)>
    decreases v.len(),
{
    if v.len() == 0 {
        Seq::empty()
    } else {
        let sofar = sets_in(v.drop_last());
        match v.last().1 {
            Some(t) => if v.last().0.len() == 0 {
                sofar
            } else {
                assoc::with(sofar, v.last().0, t)
            },
            None => sofar,
        }
    }
}

/// The names that a list of changes deletes: those that it gives no value.
pub open spec fn deletes_in(v: Seq<(Seq<char>, Option<Seq<char>>)>) -> Seq<Seq<char>>
    decreases v.len(),
{
    if v.len() == 0 {
        Seq::empty()
    } else {
        let sofar = deletes_in(v.drop_last());
        if v.last().1 is None && v.last().0.len() > 0 {
            sofar.push(v.last().0)
        } else {
            sofar
        }
    }
}

/// The values that a list of changes sets, unless it is too long.
pub open spec fn listed_sets(v: Seq<(Seq<char>, Option<Seq<char>>)>) -> Seq<
    (Seq<char>, Seq<char>),
> {
    if v.len() > LIST_CAP { Seq::empty() } else { sets_in(v) }
}

/// The names that a list of changes deletes, unless it is too long.
pub open spec fn listed_deletes(v: Seq<(Seq<char>, Option<Seq<char>>)>) -> Seq<Seq<char>> {
    if v.len() > LIST_CAP { Seq::empty() } else { deletes_in(v) }
}

/// Splits a list of changes into what it sets and what it deletes.
pub fn kv_list_split(v: &Vec<(String, Option<String>)>) -> (r: (
    Vec<(String, String)>,
    Vec<String>,
))
    ensures
        assoc::pairs(r.0@) == listed_sets(option_pairs(v@)),
        text::views(r.1@) == listed_deletes(option_pairs(v@)),
{
    let ghost all = option_pairs(v@);
    let mut sets: Vec<(String, String)> = Vec::new();
    let mut deletes: Vec<String> = Vec::new();
    assert(assoc::pairs(sets@) =~= Seq::empty());
    assert(text::views(deletes@) =~= Seq::empty());
    if v.len() > LIST_CAP {
        return (sets, deletes);
    }
    let mut i: usize = 0;
    assert(all.take(0) =~= Seq::empty());
    while i < v.len()
        invariant
            i <= v@.len(),
            all == option_pairs(v@),
            assoc::pairs(sets@) == sets_in(all.take(i as int)),
            text::views(deletes@) == deletes_in(all.take(i as int)),
        decreases v@.len() - i,
    {
        assert(all.take(i + 1).drop_last() =~= all.take(i as int));
        assert(all[i as int] == (v@[i as int].0@, scan::opt_text(v@[i as int].1)));
        if !text::is_empty(v[i].0.as_str()) {
            match &v[i].1 {
                Some(t) => {
                    assoc::put(&mut sets, v[i].0.as_str(), t.clone());
                },
                None => {
                    let ghost sofar = text::views(deletes@);
                    let k = v[i].0.clone();
                    deletes.push(k);
                    assert(text::views(deletes@) =~= sofar.push(k@));
                },
            }
        }
        i += 1;
    }
    assert(all.take(i as int) =~= all);
    (sets, deletes)
}

/// What the title changes of a lobby.
pub struct DataUpdate {
    pub owner: Option<Entity>,
    pub max_players: Option<u32>,
    pub access_policy: Option<i32>,
    pub membership_lock: Option<i32>,
    pub search: Vec<(String, Option<String>)>,
    pub props: Vec<(String, Option<String>)>,
}

/// What the title changes of a participant.
pub struct MemberData {
    pub member: Option<Entity>,
    pub values: Vec<(String, Option<String>)>,
}

/// The new owner, where an update names one.
pub open spec fn new_owner(e: Option<Entity>) -> Option<EntityView> {
    match e {
        Some(e) => if e.id@.len() == 0 {
            None
        } else {
            Some(
                EntityView {
                    id: lobby_model::kept(e.id@),
                    kind: lobby_model::kept(e.kind@),
                },
            )
        },
        None => None,
    }
}

/// The access policy that an update sets.
pub open spec fn new_policy(n: Option<i32>) -> Option<u32> {
    match n {
        Some(n) => Some(if n < 0 { 0u32 } else { n as u32 }),
        None => None,
    }
}

/// A lobby with what an update changes of it: values are set first and deleted then.
pub open spec fn with_data(l: LobbyView, u: DataUpdate) -> LobbyView {
    LobbyView {
        search: lobby_model::dropping(
            lobby_model::setting(l.search, listed_sets(option_pairs(u.search@))),
            listed_deletes(option_pairs(u.search@)),
        ),
        props: lobby_model::dropping(
            lobby_model::setting(l.props, listed_sets(option_pairs(u.props@))),
            listed_deletes(option_pairs(u.props@)),
        ),
        owner: match new_owner(u.owner) {
            Some(o) => o,
            None => l.owner,
        },
        has_owner: l.has_owner || new_owner(u.owner) is Some,
        max_players: match u.max_players {
            Some(n) => n,
            None => l.max_players,
        },
        access_policy: match new_policy(u.access_policy) {
            Some(n) => n,
            None => l.access_policy,
        },
        membership_lock: match u.membership_lock {
            Some(n) => n,
            None => l.membership_lock,
        },
        ..l
    }
}

/// The identifier of a participant that the title names, or the local one.
pub open spec fn id_or(e: Option<EntityView>, other: Seq<char>) -> Seq<char> {
    match e {
        Some(e) => if e.id.len() > 0 { e.id } else { other },
        None => other,
    }
}

/// The participant whose values an update changes, where it changes any.
pub open spec fn changed_member(
    u: MemberData,
    member: Option<EntityView>,
    local: Seq<char>,
) -> Option<Seq<char>> {
    let id = id_or(lobby_model::opt_entity(u.member), id_or(member, local));
    if id.len() > 0 && (listed_sets(option_pairs(u.values@)).len() > 0 || listed_deletes(
        option_pairs(u.values@),
    ).len() > 0) {
        Some(id)
    } else {
        None
    }
}

/// A lobby with what an update changes of a participant.
pub open spec fn with_member(
    l: LobbyView,
    u: MemberData,
    member: Option<EntityView>,
    local: Seq<char>,
) -> LobbyView {
    match changed_member(u, member, local) {
        Some(id) => LobbyView {
            member_props: assoc::with(
                l.member_props,
                id,
                lobby_model::ensured(
                    lobby_model::dropping(
                        lobby_model::setting(
                            lobby_delta::bag_or_none(l.member_props, id),
                            listed_sets(option_pairs(u.values@)),
                        ),
                        listed_deletes(option_pairs(u.values@)),
                    ),
                    id,
                ),
            ),
            ..l
        },
        None => l,
    }
}

/// A lobby after an update.
pub open spec fn with_update(
    l: LobbyView,
    data: Option<DataUpdate>,
    values: Option<MemberData>,
    member: Option<EntityView>,
    local: Seq<char>,
) -> LobbyView {
    let a = match data {
        Some(u) => with_data(l, u),
        None => l,
    };
    match values {
        Some(u) => with_member(a, u, member, local),
        None => a,
    }
}

/// What an update asks of the broker beside the values of the lobby.
pub open spec fn asked_update(
    data: Option<DataUpdate>,
    values: Option<MemberData>,
    member: Option<EntityView>,
    local: Seq<char>,
) -> UpdateView {
    let target = match values {
        Some(v) => changed_member(v, member, local),
        None => None,
    };
    let member_delete = match values {
        Some(v) => if target is Some {
            listed_deletes(option_pairs(v.values@))
        } else {
            Seq::empty()
        },
        None => Seq::empty(),
    };
    match data {
        Some(d) => UpdateView {
            search_delete: listed_deletes(option_pairs(d.search@)),
            lobby_delete: listed_deletes(option_pairs(d.props@)),
            member: target,
            member_delete,
            owner: new_owner(d.owner),
            max_players: d.max_players,
            access_policy: new_policy(d.access_policy),
            membership_lock: d.membership_lock,
        },
        None => UpdateView {
            search_delete: Seq::empty(),
            lobby_delete: Seq::empty(),
            member: target,
            member_delete,
            owner: None,
            max_players: None,
            access_policy: None,
            membership_lock: None,
        },
    }
}

fn apply_data(l: &mut Lobby, u: &DataUpdate) -> (r: (Vec<String>, Vec<String>, Scalars))
    ensures
        final(l)@ == with_data(old(l)@, *u),
        text::views(r.0@) == listed_deletes(option_pairs(u.search@)),
        text::views(r.1@) == listed_deletes(option_pairs(u.props@)),
        lobby_model::opt_entity(r.2.owner) == new_owner(u.owner),
        r.2.max_players == u.max_players,
        r.2.access_policy == new_policy(u.access_policy),
        r.2.membership_lock == u.membership_lock,
{
    let (search_sets, search_deletes) = kv_list_split(&u.search);
    lobby_model::apply_props(&mut l.search, &search_sets);
    lobby_model::drop_props(&mut l.search, &search_deletes);
    let (lobby_sets, lobby_deletes) = kv_list_split(&u.props);
    lobby_model::apply_props(&mut l.props, &lobby_sets);
    lobby_model::drop_props(&mut l.props, &lobby_deletes);
    let mut owner: Option<Entity> = None;
    if let Some(e) = &u.owner {
        if !text::is_empty(e.id.as_str()) {
            let o = Entity {
                id: lobby_model::keep(e.id.as_str()),
                kind: lobby_model::keep(e.kind.as_str()),
            };
            l.owner = o.copy();
            l.has_owner = true;
            owner = Some(o);
        }
    }
    if let Some(n) = u.max_players {
        l.max_players = n;
    }
    let access_policy: Option<u32> = match u.access_policy {
        Some(n) => Some(
            if n < 0 {
                0
            } else {
                n as u32
            },
        ),
        None => None,
    };
    if let Some(n) = access_policy {
        l.access_policy = n;
    }
    if let Some(n) = u.membership_lock {
        l.membership_lock = n;
    }
    let scalars = Scalars {
        owner,
        max_players: u.max_players,
        access_policy,
        membership_lock: u.membership_lock,
    };
    (search_deletes, lobby_deletes, scalars)
}

/// The identifier of a participant that the title names, or another.
pub fn entity_id_of(e: &Option<Entity>, other: &str) -> (r: String)
    ensures
        r@ == id_or(lobby_model::opt_entity(*e), other@),
{
    match e {
        Some(e) => if text::is_empty(e.id.as_str()) {
            other.to_owned()
        } else {
            e.id.clone()
        },
        None => other.to_owned(),
    }
}

fn apply_member(l: &mut Lobby, u: &MemberData, member: &Option<Entity>, local: &str) -> (r: (
    Option<String>,
    Vec<String>,
))
    ensures
        final(l)@ == with_member(old(l)@, *u, lobby_model::opt_entity(*member), local@),
        scan::opt_text(r.0) == changed_member(*u, lobby_model::opt_entity(*member), local@),
        text::views(r.1@) == (if changed_member(
            *u,
            lobby_model::opt_entity(*member),
            local@,
        ) is Some {
            listed_deletes(option_pairs(u.values@))
        } else {
            Seq::empty()
        }),
{
    let fallback = entity_id_of(member, local);
    let id = entity_id_of(&u.member, fallback.as_str());
    let (sets, deletes) = kv_list_split(&u.values);
    assert(assoc::pairs(sets@).len() == sets@.len());
    assert(text::views(deletes@).len() == deletes@.len());
    if text::is_empty(id.as_str()) || (sets.len() == 0 && deletes.len() == 0) {
        let none: Vec<String> = Vec::new();
        assert(text::views(none@) =~= Seq::empty());
        return (None, none);
    }
    let mut bag = match assoc::get(&l.member_props, id.as_str()) {
        Some(b) => b.copy(),
        None => Bag::new(),
    };
    lobby_model::apply_props(&mut bag, &sets);
    lobby_model::drop_props(&mut bag, &deletes);
    lobby_model::ensure_member_props(&mut bag, id.as_str());
    assoc::put(&mut l.member_props, id.as_str(), bag);
    (Some(id), deletes)
}

/// Applies an update to a lobby, and gives what the broker is to be asked beside the values.
pub fn apply_update(
    l: &mut Lobby,
    data: &Option<DataUpdate>,
    values: &Option<MemberData>,
    member: &Option<Entity>,
    local: &str,
) -> (r: Update)
    ensures
        final(l)@ == with_update(
            old(l)@,
            *data,
            *values,
            lobby_model::opt_entity(*member),
            local@,
        ),
        r@ == asked_update(*data, *values, lobby_model::opt_entity(*member), local@),
{
    let (search_delete, lobby_delete, scalars) = match data {
        Some(u) => apply_data(l, u),
        None => (
            Vec::new(),
            Vec::new(),
            Scalars {
                owner: None,
                max_players: None,
                access_policy: None,
                membership_lock: None,
            },
        ),
    };
    let (target, member_delete) = match values {
        Some(u) => apply_member(l, u, member, local),
        None => {
            let none: Vec<String> = Vec::new();
            assert(text::views(none@) =~= Seq::empty());
            (None, none)
        },
    };
    let r = Update { search_delete, lobby_delete, member: target, member_delete, scalars };
    assert(r@ =~= asked_update(*data, *values, lobby_model::opt_entity(*member), local@));
    r
}

/// A text that the title reads, or a code.
pub open spec fn read_text(r: Result<String, i32>) -> Result<Seq<char>, i32> {
    match r {
        Ok(t) => Ok(t@),
        Err(code) => Err(code),
    }
}

/// Who takes part: the participants, and those whose values are known.
pub open spec fn takes_part(l: LobbyView, id: Seq<char>) -> bool {
    id.len() == 0 || lobby_delta::entity_place(l.members, id) is Some || assoc::lookup(
        l.member_props,
        id,
    ) is Some
}

/// A value of a lobby that the title may see: while the lobby is not there yet, a place for a
/// network is not shown as one.
pub open spec fn shown_property(l: LobbyView, key: Seq<char>) -> Option<Seq<char>> {
    match assoc::lookup(l.props, key) {
        Some(v) => if key == "network_descriptor"@ && l.pending
            && !lobby_requests::is_network_line(v) {
            None
        } else {
            Some(v)
        },
        None => None,
    }
}

impl Lobby {
    /// The identifier of the lobby, once it is there.
    pub fn get_lobby_id(&self) -> (r: Result<String, i32>)
        ensures
            read_text(r) == (if self@.pending {
                Err(lobby_requests::E_PF_OBJECT_STILL_PENDING)
            } else {
                Ok(self@.id)
            }),
    {
        if self.pending {
            Err(lobby_requests::E_PF_OBJECT_STILL_PENDING)
        } else {
            Ok(self.id.clone())
        }
    }

    /// The connection of the lobby, once it is there.
    pub fn get_connection_string(&self) -> (r: Result<String, i32>)
        ensures
            read_text(r) == (if self@.pending {
                Err(lobby_requests::E_PF_OBJECT_STILL_PENDING)
            } else {
                Ok(self@.connection)
            }),
    {
        if self.pending {
            Err(lobby_requests::E_PF_OBJECT_STILL_PENDING)
        } else {
            Ok(self.connection.clone())
        }
    }

    /// A value of the lobby.
    pub fn get_lobby_property(&self, key: &str) -> (r: Option<String>)
        ensures
            scan::opt_text(r) == shown_property(self@, key@),
    {
        match assoc::get(&self.props.entries, key) {
            Some(v) => {
                if text::eq(key, "network_descriptor") && self.pending
                    && !lobby_requests::is_real_network_descriptor(v.as_str()) {
                    return None;
                }
                Some(v.clone())
            },
            None => None,
        }
    }

    /// A value by which the lobby is searched.
    pub fn get_search_property(&self, key: &str) -> (r: Option<String>)
        ensures
            scan::opt_text(r) == assoc::lookup(self@.search, key@),
    {
        match assoc::get(&self.search.entries, key) {
            Some(v) => Some(v.clone()),
            None => None,
        }
    }

    fn has_member(&self, id: &str) -> (r: bool)
        ensures
            r == takes_part(self@, id@),
    {
        text::is_empty(id) || lobby_delta::find_entity(&self.members, id).is_some() || assoc::get(
            &self.member_props,
            id,
        ).is_some()
    }

    /// A value of a participant. None is seen before the lobby is there.
    pub fn get_member_property(&self, member: &Option<Entity>, key: &str) -> (r: Result<
        Option<String>,
        i32,
    >)
        ensures
            match *member {
                None => r == Err::<Option<String>, i32>(lobby_requests::E_PF_ENTITY_KEY_MALFORMED),
                Some(m) => if self@.pending {
                    r == Ok::<Option<String>, i32>(None)
                } else if !takes_part(self@, m.id@) {
                    r == Err::<Option<String>, i32>(lobby_requests::E_PF_LOBBY_MEMBER_NOT_IN_LOBBY)
                } else {
                    match r {
                        Ok(v) => scan::opt_text(v) == assoc::lookup(
                            lobby_delta::bag_or_none(self@.member_props, m.id@),
                            key@,
                        ),
                        Err(_) => false,
                    }
                },
            },
    {
        let m = match member {
            Some(m) => m,
            None => {
                return Err(lobby_requests::E_PF_ENTITY_KEY_MALFORMED);
            },
        };
        if self.pending {
            return Ok(None);
        }
        if !self.has_member(m.id.as_str()) {
            return Err(lobby_requests::E_PF_LOBBY_MEMBER_NOT_IN_LOBBY);
        }
        match assoc::get(&self.member_props, m.id.as_str()) {
            Some(b) => match assoc::get(&b.entries, key) {
                Some(v) => Ok(Some(v.clone())),
                None => Ok(None),
            },
            None => Ok(None),
        }
    }

    /// The owner of the lobby, once it is there and where there is one.
    pub fn get_owner(&self) -> (r: Result<Option<Entity>, i32>)
        ensures
            match r {
                Ok(e) => !self@.pending && lobby_model::opt_entity(e) == (if self@.has_owner {
                    Some(self@.owner)
                } else {
                    None
                }),
                Err(code) => self@.pending && code == lobby_requests::E_PF_OBJECT_STILL_PENDING,
            },
    {
        if self.pending {
            Err(lobby_requests::E_PF_OBJECT_STILL_PENDING)
        } else if self.has_owner {
            Ok(Some(self.owner.copy()))
        } else {
            Ok(None)
        }
    }

    /// The lock of the lobby, once it is there.
    pub fn get_membership_lock(&self) -> (r: Result<i32, i32>)
        ensures
            r == (if self@.pending {
                Err(lobby_requests::E_PF_OBJECT_STILL_PENDING)
            } else {
                Ok(self@.membership_lock)
            }),
    {
        if self.pending {
            Err(lobby_requests::E_PF_OBJECT_STILL_PENDING)
        } else {
            Ok(self.membership_lock)
        }
    }

    /// Whether a participant is connected: nobody is before the lobby is there.
    pub fn get_member_connection_status(&self, member: &Entity) -> (r: Result<i32, i32>)
        ensures
            r == (if self@.pending {
                Ok(0i32)
            } else if takes_part(self@, member@.id) {
                Ok(1i32)
            } else {
                Err(lobby_requests::E_PF_LOBBY_MEMBER_NOT_IN_LOBBY)
            }),
    {
        if self.pending {
            Ok(0)
        } else if self.has_member(member.id.as_str()) {
            Ok(1)
        } else {
            Err(lobby_requests::E_PF_LOBBY_MEMBER_NOT_IN_LOBBY)
        }
    }
}

pub proof fn lemma_setting_lookup(
    m: Seq<(Seq<char>, Seq<char>)>,
    v: Seq<(Seq<char>, Seq<char>)>,
    key: Seq<char>,
)
    ensures
        assoc::lookup(lobby_model::setting(m, v), key) == (match last_value(v, key) {
            Some(t) => Some(lobby_model::kept(t)),
            None => assoc::lookup(m, key),
        }),
    decreases v.len(),
{
    if v.len() > 0 {
        lemma_setting_lookup(m, v.drop_last(), key);
        assoc::set_is_found(
            lobby_model::setting(m, v.drop_last()),
            v.last().0,
            lobby_model::kept(v.last().1),
            key,
        );
    }
}

/// The last value under a name in a list.
pub open spec fn last_value(v: Seq<(Seq<char>, Seq<char>)>, key: Seq<char>) -> Option<Seq<char>>
    decreases v.len(),
{
    if v.len() == 0 {
        None
    } else if v.last().0 == key {
        Some(v.last().1)
    } else {
        last_value(v.drop_last(), key)
    }
}

pub proof fn lemma_last_value(v: Seq<(Seq<char>, Seq<char>)>, key: Seq<char>)
    requires
        assoc::distinct(v),
    ensures
        last_value(v, key) == assoc::lookup(v, key),
    decreases v.len(),
{
    if v.len() > 0 {
        let w = v.drop_last();
        assert forall|i: int, j: int| 0 <= i < j < w.len() implies (#[trigger] w[i]).0 != (
        #[trigger] w[j]).0 by {
            assert(v[i].0 != v[j].0);
        }
        lemma_last_value(w, key);
        assoc::lemma_place(w, key);
        assoc::lemma_place(v, key);
        if v.last().0 == key {
            assert forall|j: int| 0 <= j < v.len() - 1 implies (#[trigger] v[j]).0 != key by {
                assert(v[j].0 != v[v.len() - 1].0);
            }
            assoc::lemma_place_is(v, key, v.len() - 1);
        } else if let Some(i) = assoc::place(w, key) {
            assert forall|j: int| 0 <= j < i implies (#[trigger] v[j]).0 != key by {
                assert(w[j].0 != key);
            }
            assert(v[i] == w[i]);
            assoc::lemma_place_is(v, key, i);
        } else if let Some(i) = assoc::place(v, key) {
            assert(v[i] == w[i]);
        }
    }
}

pub proof fn lemma_sets_distinct(v: Seq<(Seq<char>, Option<Seq<char>>)>)
    ensures
        assoc::distinct(sets_in(v)),
    decreases v.len(),
{
    if v.len() > 0 {
        lemma_sets_distinct(v.drop_last());
        if let Some(t) = v.last().1 {
            assoc::set_is_found(sets_in(v.drop_last()), v.last().0, t, v.last().0);
        }
    }
}

pub proof fn lemma_setting_distinct(m: Seq<(Seq<char>, Seq<char>)>, v: Seq<(Seq<char>, Seq<char>)>)
    requires
        assoc::distinct(m),
    ensures
        assoc::distinct(lobby_model::setting(m, v)),
    decreases v.len(),
{
    if v.len() > 0 {
        lemma_setting_distinct(m, v.drop_last());
        assoc::set_is_found(
            lobby_model::setting(m, v.drop_last()),
            v.last().0,
            lobby_model::kept(v.last().1),
            v.last().0,
        );
    }
}

pub proof fn lemma_dropping(m: Seq<(Seq<char>, Seq<char>)>, keys: Seq<Seq<char>>, key: Seq<char>)
    requires
        assoc::distinct(m),
    ensures
        assoc::distinct(lobby_model::dropping(m, keys)),
        assoc::lookup(lobby_model::dropping(m, keys), key) == (if keys.contains(key) {
            None
        } else {
            assoc::lookup(m, key)
        }),
    decreases keys.len(),
{
    if keys.len() > 0 {
        let k = keys.drop_last();
        lemma_dropping(m, k, key);
        assoc::removed_is_gone(lobby_model::dropping(m, k), keys.last(), key);
        assert(keys =~= k.push(keys.last()));
        assert(k.contains(key) ==> keys.contains(key)) by {
            if k.contains(key) {
                let i = choose|i: int| 0 <= i < k.len() && k[i] == key;
                assert(keys[i] == key);
            }
        }
        assert(keys[keys.len() - 1] == keys.last());
        if keys.contains(key) && key != keys.last() {
            let i = choose|i: int| 0 <= i < keys.len() && keys[i] == key;
            assert(k[i] == key);
        }
    }
}

/// What the title has posted it reads back at once: a name without a value is gone, one with a
/// value has it, and the others are as they were.
pub proof fn posted_values_are_read(l: LobbyView, u: DataUpdate, key: Seq<char>)
    requires
        assoc::distinct(l.props),
    ensures
        assoc::lookup(with_data(l, u).props, key) == (if listed_deletes(
            option_pairs(u.props@),
        ).contains(key) {
            None
        } else {
            match assoc::lookup(listed_sets(option_pairs(u.props@)), key) {
                Some(t) => Some(lobby_model::kept(t)),
                None => assoc::lookup(l.props, key),
            }
        }),
        assoc::distinct(with_data(l, u).props),
{
    let v = option_pairs(u.props@);
    let sets = listed_sets(v);
    lemma_sets_distinct(v);
    lemma_last_value(sets, key);
    lemma_setting_lookup(l.props, sets, key);
    lemma_setting_distinct(l.props, sets);
    lemma_dropping(lobby_model::setting(l.props, sets), listed_deletes(v), key);
}

/// Before a lobby is there, the title reads nothing of its identity.
pub proof fn pending_lobby_is_closed(l: Lobby)
    requires
        l@.pending,
    ensures
        forall|r: Result<String, i32>|
            call_ensures(Lobby::get_lobby_id, (&l,), r) ==> read_text(r) == Err::<Seq<char>, i32>(
                lobby_requests::E_PF_OBJECT_STILL_PENDING,
            ),
        forall|r: Result<String, i32>|
            call_ensures(Lobby::get_connection_string, (&l,), r) ==> read_text(r) == Err::<
                Seq<char>,
                i32,
            >(lobby_requests::E_PF_OBJECT_STILL_PENDING),
        forall|r: Result<i32, i32>|
            call_ensures(Lobby::get_membership_lock, (&l,), r) ==> r == Err::<i32, i32>(
                lobby_requests::E_PF_OBJECT_STILL_PENDING,
            ),
{
}

}
