//! What the client tells the title of a lobby: who came and went, what has changed, and how what
//! the title asked for ended.
use crate::assoc;
use crate::lobby_delta;
use crate::lobby_delta::{Delta, DeltaView, MemberUpdate, MemberUpdateView};
use crate::lobby_json;
use crate::lobby_model;
use crate::lobby_model::{Entity, EntityView, Lobby, LobbyView};
use crate::lobby_requests;
use crate::lobby_rows;
use crate::lobby_rows::{SearchRow, SearchRowView};
use crate::text;
use vstd::prelude::*;

verus! {

/// Something that the title is told. A lobby stands for the number by which the title names it.
pub enum LobbyChange {
    CreateCompleted { result: i32, context: u64, lobby: u64 },
    JoinCompleted { result: i32, joiner: Entity, lobby: u64 },
    MemberAdded { lobby: u64, member: Entity },
    MemberRemoved { lobby: u64, member: Entity },
    LeaveCompleted,
    Updated { lobby: u64, delta: Delta },
    PostUpdateCompleted { lobby: u64, user: Option<Entity>, context: u64 },
    Disconnected { lobby: u64 },
    FindCompleted { result: i32, searcher: Entity, context: u64, rows: Vec<SearchRow> },
}

#[verifier::ext_equal]
pub enum LobbyChangeView {
    CreateCompleted { result: i32, context: u64, lobby: u64 },
    JoinCompleted { result: i32, joiner: EntityView, lobby: u64 },
    MemberAdded { lobby: u64, member: EntityView },
    MemberRemoved { lobby: u64, member: EntityView },
    LeaveCompleted,
    Updated { lobby: u64, delta: DeltaView },
    PostUpdateCompleted { lobby: u64, user: Option<EntityView>, context: u64 },
    Disconnected { lobby: u64 },
    FindCompleted { result: i32, searcher: EntityView, context: u64, rows: Seq<SearchRowView> },
}

impl View for LobbyChange {
    type V = LobbyChangeView;

    open spec fn view(&self) -> LobbyChangeView {
        match *self {
            LobbyChange::CreateCompleted { result, context, lobby } => {
                LobbyChangeView::CreateCompleted { result, context, lobby }
            },
            LobbyChange::JoinCompleted { result, joiner, lobby } => {
                LobbyChangeView::JoinCompleted { result, joiner: joiner@, lobby }
            },
            LobbyChange::MemberAdded { lobby, member } => {
                LobbyChangeView::MemberAdded { lobby, member: member@ }
            },
            LobbyChange::MemberRemoved { lobby, member } => {
                LobbyChangeView::MemberRemoved { lobby, member: member@ }
            },
            LobbyChange::LeaveCompleted => LobbyChangeView::LeaveCompleted,
            LobbyChange::Updated { lobby, delta } => {
                LobbyChangeView::Updated { lobby, delta: delta@ }
            },
            LobbyChange::PostUpdateCompleted { lobby, user, context } => {
                LobbyChangeView::PostUpdateCompleted {
                    lobby,
                    user: lobby_model::opt_entity(user),
                    context,
                }
            },
            LobbyChange::Disconnected { lobby } => LobbyChangeView::Disconnected { lobby },
            LobbyChange::FindCompleted { result, searcher, context, rows } => {
                LobbyChangeView::FindCompleted {
                    result,
                    searcher: searcher@,
                    context,
                    rows: lobby_rows::row_views(rows@),
                }
            },
        }
    }
}

/// The number by which the title knows a kind of change.
pub open spec fn change_kind(c: LobbyChangeView) -> u32 {
    match c {
        LobbyChangeView::CreateCompleted { .. } => 0,
        LobbyChangeView::JoinCompleted { .. } => 1,
        LobbyChangeView::MemberAdded { .. } => 2,
        LobbyChangeView::MemberRemoved { .. } => 4,
        LobbyChangeView::LeaveCompleted => 6,
        LobbyChangeView::Updated { .. } => 7,
        LobbyChangeView::PostUpdateCompleted { .. } => 8,
        LobbyChangeView::Disconnected { .. } => 10,
        LobbyChangeView::FindCompleted { .. } => 12,
    }
}

impl LobbyChange {
    /// The number by which the title knows a kind of change.
    pub fn kind(&self) -> (r: u32)
        ensures
            r == change_kind(self@),
    {
        match self {
            LobbyChange::CreateCompleted { .. } => 0,
            LobbyChange::JoinCompleted { .. } => 1,
            LobbyChange::MemberAdded { .. } => 2,
            LobbyChange::MemberRemoved { .. } => 4,
            LobbyChange::LeaveCompleted => 6,
            LobbyChange::Updated { .. } => 7,
            LobbyChange::PostUpdateCompleted { .. } => 8,
            LobbyChange::Disconnected { .. } => 10,
            LobbyChange::FindCompleted { .. } => 12,
        }
    }
}

pub open spec fn lobby_changes(v: Seq<LobbyChange>) -> Seq<LobbyChangeView> {
    v.map_values(|c: LobbyChange| c@)
}

/// Queues a change.
pub fn tell(out: &mut Vec<LobbyChange>, c: LobbyChange)
    ensures
        lobby_changes(final(out)@) == lobby_changes(old(out)@).push(c@),
{
    let ghost before = lobby_changes(out@);
    out.push(c);
    assert(lobby_changes(out@) =~= before.push(c@));
}

/// A lobby and what is queued for the title.
#[verifier::ext_equal]
pub struct Stage {
    pub lobby: LobbyView,
    pub out: Seq<LobbyChangeView>,
}

pub open spec fn stage(l: Lobby, out: Seq<LobbyChange>) -> Stage {
    Stage { lobby: l@, out: lobby_changes(out) }
}

/// The title is told of a participant, once.
pub open spec fn announcing(s: Stage, member: EntityView) -> Stage {
    if member.id.len() == 0 || member.id == "owner"@ || s.lobby.announced.contains(member.id) {
        s
    } else {
        Stage {
            lobby: LobbyView { announced: s.lobby.announced.push(member.id), ..s.lobby },
            out: s.out.push(LobbyChangeView::MemberAdded { lobby: s.lobby.number, member }),
        }
    }
}

/// The title is told of some participants.
pub open spec fn announcing_each(s: Stage, members: Seq<EntityView>) -> Stage
    decreases members.len(),
{
    if members.len() == 0 {
        s
    } else {
        announcing(announcing_each(s, members.drop_last()), members.last())
    }
}

/// The title is told of the owner and of all participants.
pub open spec fn announcing_all(s: Stage) -> Stage {
    announcing_each(announcing(s, s.lobby.owner), s.lobby.members)
}

/// Whether a list holds a text.
pub fn holds_text(v: &Vec<String>, t: &str) -> (r: bool)
    ensures
        r == text::views(v@).contains(t@),
{
    let mut i: usize = 0;
    while i < v.len()
        invariant
            i <= v@.len(),
            forall|j: int| 0 <= j < i ==> (#[trigger] text::views(v@)[j]) != t@,
        decreases v@.len() - i,
    {
        assert(text::views(v@)[i as int] == v@[i as int]@);
        if text::eq(v[i].as_str(), t) {
            return true;
        }
        i += 1;
    }
    false
}

/// Tells the title of a participant, once.
pub fn emit_member_added(l: &mut Lobby, out: &mut Vec<LobbyChange>, member: &Entity)
    ensures
        stage(*final(l), final(out)@) == announcing(stage(*old(l), old(out)@), member@),
{
    if text::is_empty(member.id.as_str()) || text::eq(member.id.as_str(), "owner") || holds_text(
        &l.announced,
        member.id.as_str(),
    ) {
        return;
    }
    let ghost before = l@;
    l.announced.push(member.id.clone());
    assert(l@.announced =~= before.announced.push(member@.id));
    tell(out, LobbyChange::MemberAdded { lobby: l.number, member: member.copy() });
}

proof fn lemma_announcing_each_keeps(s: Stage, members: Seq<EntityView>)
    ensures
        announcing_each(s, members).lobby == (LobbyView {
            announced: announcing_each(s, members).lobby.announced,
            ..s.lobby
        }),
    decreases members.len(),
{
    if members.len() > 0 {
        lemma_announcing_each_keeps(s, members.drop_last());
    }
}

/// Tells the title of the owner and of all participants.
pub fn announce_lobby_members(l: &mut Lobby, out: &mut Vec<LobbyChange>)
    ensures
        stage(*final(l), final(out)@) == announcing_all(stage(*old(l), old(out)@)),
{
    let owner = l.owner.copy();
    emit_member_added(l, out, &owner);
    let ghost first = stage(*l, out@);
    let ghost all = l@.members;
    let mut i: usize = 0;
    assert(all.take(0) =~= Seq::empty());
    while i < l.members.len()
        invariant
            i <= l.members@.len(),
            all == first.lobby.members,
            l@.members == all,
            stage(*l, out@) == announcing_each(first, all.take(i as int)),
        decreases l.members@.len() - i,
    {
        assert(all.take(i + 1).drop_last() =~= all.take(i as int));
        assert(all[i as int] == l.members@[i as int]@);
        let m = l.members[i].copy();
        let ghost n = l.members@.len();
        assert(all.len() == n);
        emit_member_added(l, out, &m);
        proof {
            lemma_announcing_each_keeps(first, all.take(i + 1));
        }
        assert(l@.members.len() == l.members@.len());
        i += 1;
    }
    assert(l@.members.len() == l.members@.len());
    assert(all.take(i as int) =~= all);
}

/// The title is told what has changed. The first time, and where it is forced, that includes the
/// lock; where nothing is left to tell, nothing is told.
pub open spec fn updating(s: Stage, delta: DeltaView, force: bool) -> Stage {
    let d = DeltaView {
        membership_lock: delta.membership_lock || force || !s.lobby.lock_known,
        ..delta
    };
    if d == lobby_delta::no_delta() {
        s
    } else {
        Stage {
            lobby: LobbyView { lock_known: true, ..s.lobby },
            out: s.out.push(LobbyChangeView::Updated { lobby: s.lobby.number, delta: d }),
        }
    }
}

/// Tells the title what has changed.
pub fn emit_updated(l: &mut Lobby, out: &mut Vec<LobbyChange>, delta: Delta, force: bool)
    ensures
        stage(*final(l), final(out)@) == updating(stage(*old(l), old(out)@), delta@, force),
{
    let mut delta = delta;
    if force || !l.lock_known {
        delta.membership_lock = true;
    }
    if delta.is_empty() {
        return;
    }
    l.lock_known = true;
    tell(out, LobbyChange::Updated { lobby: l.number, delta });
}

/// What the joining participant brings.
pub open spec fn joiner_delta(l: LobbyView, joiner: EntityView) -> DeltaView {
    let keys = lobby_delta::changed_names(
        Seq::empty(),
        lobby_delta::bag_or_none(l.member_props, joiner.id),
    );
    if keys.len() == 0 {
        lobby_delta::no_delta()
    } else {
        DeltaView {
            members: seq![MemberUpdateView { member: joiner, connected: true, keys }],
            ..lobby_delta::no_delta()
        }
    }
}

/// A joining ends: the title is told of everybody, then of the joiner's values and the lock, and
/// then that it has joined.
pub open spec fn completing_join(s: Stage, joiner: EntityView) -> Stage {
    let open = Stage { lobby: LobbyView { pending: false, ..s.lobby }, out: s.out };
    let told = announcing(announcing_all(open), joiner);
    let shown = updating(told, joiner_delta(s.lobby, joiner), true);
    Stage {
        lobby: shown.lobby,
        out: shown.out.push(
            LobbyChangeView::JoinCompleted { result: 0, joiner, lobby: s.lobby.number },
        ),
    }
}

/// Tells the title that a joining has ended.
pub fn emit_join_completed(l: &mut Lobby, out: &mut Vec<LobbyChange>, joiner: &Entity)
    ensures
        stage(*final(l), final(out)@) == completing_join(stage(*old(l), old(out)@), joiner@),
{
    let ghost before = stage(*l, out@);
    l.pending = false;
    let ghost open = stage(*l, out@);
    announce_lobby_members(l, out);
    proof {
        lemma_announcing_each_keeps(announcing(open, open.lobby.owner), open.lobby.members);
    }
    emit_member_added(l, out, joiner);
    assert(l@.member_props == before.lobby.member_props);
    let keys = match assoc::get(&l.member_props, joiner.id.as_str()) {
        Some(b) => lobby_delta::changed_keys(&lobby_model::Bag::new(), b),
        None => lobby_delta::changed_keys(&lobby_model::Bag::new(), &lobby_model::Bag::new()),
    };
    let mut delta = Delta::none();
    assert(text::views(keys@).len() == keys@.len());
    if keys.len() > 0 {
        let u = MemberUpdate { member: joiner.copy(), connected: true, keys };
        delta.members.push(u);
        assert(delta@.members =~= seq![u@]);
        assert(delta@ =~= joiner_delta(before.lobby, joiner@));
    } else {
        assert(delta@ == joiner_delta(before.lobby, joiner@));
    }
    emit_updated(l, out, delta, true);
    tell(
        out,
        LobbyChange::JoinCompleted { result: 0, joiner: joiner.copy(), lobby: l.number },
    );
}

/// A list without a text.
pub open spec fn without_text(v: Seq<Seq<char>>, t: Seq<char>) -> Seq<Seq<char>>
    decreases v.len(),
{
    if v.len() == 0 {
        v
    } else if v.last() == t {
        without_text(v.drop_last(), t)
    } else {
        without_text(v.drop_last(), t).push(v.last())
    }
}

/// Takes a text out of a list.
fn drop_text(v: &mut Vec<String>, t: &str)
    ensures
        text::views(final(v)@) == without_text(text::views(old(v)@), t@),
{
    let ghost all = text::views(v@);
    let mut r: Vec<String> = Vec::new();
    let mut i: usize = 0;
    assert(all.take(0) =~= Seq::empty());
    assert(text::views(r@) =~= Seq::empty());
    while i < v.len()
        invariant
            i <= v@.len(),
            all == text::views(v@),
            text::views(r@) == without_text(all.take(i as int), t@),
        decreases v@.len() - i,
    {
        assert(all.take(i + 1).drop_last() =~= all.take(i as int));
        assert(all[i as int] == v@[i as int]@);
        if !text::eq(v[i].as_str(), t) {
            let ghost sofar = text::views(r@);
            let e = v[i].clone();
            r.push(e);
            assert(text::views(r@) =~= sofar.push(e@));
        }
        i += 1;
    }
    assert(all.take(i as int) =~= all);
    *v = r;
}

/// The title is told that some participants are gone. One of them may come again.
pub open spec fn removing(s: Stage, gone: Seq<Seq<char>>) -> Stage
    decreases gone.len(),
{
    if gone.len() == 0 {
        s
    } else {
        let before = removing(s, gone.drop_last());
        Stage {
            lobby: LobbyView {
                announced: without_text(before.lobby.announced, gone.last()),
                ..before.lobby
            },
            out: before.out.push(
                LobbyChangeView::MemberRemoved {
                    lobby: s.lobby.number,
                    member: lobby_model::player(lobby_model::kept(gone.last())),
                },
            ),
        }
    }
}

proof fn lemma_removing_keeps(s: Stage, gone: Seq<Seq<char>>)
    ensures
        removing(s, gone).lobby == (LobbyView {
            announced: removing(s, gone).lobby.announced,
            ..s.lobby
        }),
    decreases gone.len(),
{
    if gone.len() > 0 {
        lemma_removing_keeps(s, gone.drop_last());
    }
}

/// Tells the title that some participants are gone.
fn emit_members_removed(l: &mut Lobby, out: &mut Vec<LobbyChange>, gone: &Vec<String>)
    ensures
        stage(*final(l), final(out)@) == removing(stage(*old(l), old(out)@), text::views(gone@)),
{
    let ghost first = stage(*l, out@);
    let ghost all = text::views(gone@);
    let mut i: usize = 0;
    assert(all.take(0) =~= Seq::empty());
    while i < gone.len()
        invariant
            i <= gone@.len(),
            all == text::views(gone@),
            stage(*l, out@) == removing(first, all.take(i as int)),
        decreases gone@.len() - i,
    {
        assert(all.take(i + 1).drop_last() =~= all.take(i as int));
        assert(all[i as int] == gone@[i as int]@);
        proof {
            lemma_removing_keeps(first, all.take(i as int));
        }
        let member = lobby_model::player_entity(lobby_model::keep(gone[i].as_str()).as_str());
        tell(out, LobbyChange::MemberRemoved { lobby: l.number, member });
        drop_text(&mut l.announced, gone[i].as_str());
        assert(stage(*l, out@) == removing(first, all.take(i + 1)));
        i += 1;
    }
    assert(all.take(i as int) =~= all);
}

/// What a new look at a lobby gives: the lobby after it, and whether the broker refused it.
pub open spec fn looked_at(l: LobbyView, reply: Option<(u16, Seq<char>)>) -> (LobbyView, bool) {
    match reply {
        None => (l, false),
        Some(r) => if r.0 != 200 {
            (l, true)
        } else {
            match lobby_model::told_lobby(r.1, l.number) {
                Some(fresh) => (lobby_delta::refreshed(l, fresh), false),
                None => (l, false),
            }
        },
    }
}

/// The participants that the title is to be told are gone after a new look at a lobby.
pub open spec fn gone_after(l: LobbyView, reply: Option<(u16, Seq<char>)>) -> Seq<Seq<char>> {
    match reply {
        None => Seq::empty(),
        Some(r) => if r.0 != 200 {
            Seq::empty()
        } else {
            match lobby_model::told_lobby(r.1, l.number) {
                Some(fresh) => {
                    let after = lobby_delta::refreshed(l, fresh);
                    lobby_delta::departed(after.announced, after.members)
                },
                None => Seq::empty(),
            }
        },
    }
}

/// What has changed after a new look at a lobby.
pub open spec fn delta_after(l: LobbyView, reply: Option<(u16, Seq<char>)>) -> DeltaView {
    match reply {
        None => lobby_delta::no_delta(),
        Some(r) => if r.0 != 200 {
            lobby_delta::no_delta()
        } else {
            match lobby_model::told_lobby(r.1, l.number) {
                Some(fresh) => lobby_delta::delta_of(l, lobby_delta::refreshed(l, fresh)),
                None => lobby_delta::no_delta(),
            }
        },
    }
}

/// A lobby that the broker does not have any more: the title is told once, and the broker is not
/// asked again.
pub open spec fn disconnecting(s: Stage) -> Stage {
    Stage {
        lobby: LobbyView { left: true, polled: false, ..s.lobby },
        out: s.out.push(LobbyChangeView::Disconnected { lobby: s.lobby.number }),
    }
}

/// A new look at a lobby. While a joining waits, what it tells the title waits too, except that
/// participants are gone and that the lobby is.
pub open spec fn refreshing(s: Stage, reply: Option<(u16, Seq<char>)>, joining: bool) -> Stage {
    let (after, gone) = looked_at(s.lobby, reply);
    let removed = removing(Stage { lobby: after, out: s.out }, gone_after(s.lobby, reply));
    let cut = if gone { disconnecting(removed) } else { removed };
    if joining {
        cut
    } else if gone {
        announcing_all(cut)
    } else {
        updating(announcing_all(cut), delta_after(s.lobby, reply), false)
    }
}

/// Takes a new look at a lobby.
pub fn refresh_lobby(
    l: &mut Lobby,
    out: &mut Vec<LobbyChange>,
    reply: &Option<(u16, String)>,
    joining: bool,
)
    ensures
        stage(*final(l), final(out)@) == refreshing(
            stage(*old(l), old(out)@),
            lobby_requests::reply(*reply),
            joining,
        ),
{
    let ghost first = stage(*l, out@);
    let mut gone = false;
    let mut delta = Delta::none();
    let mut lost: Vec<String> = Vec::new();
    assert(text::views(lost@) =~= Seq::empty());
    if let Some(r) = reply {
        if r.0 != 200 {
            gone = true;
        } else if let Some(fresh) = lobby_model::lobby_from_json(r.1.as_str(), l.number) {
            let before = l.copy();
            lobby_delta::merge_lobby(l, fresh);
            lost = lobby_delta::find_departed(&l.announced, &l.members);
            delta = lobby_delta::diff_lobby(&before, l);
        }
    }
    emit_members_removed(l, out, &lost);
    proof {
        lemma_removing_keeps(
            Stage { lobby: looked_at(first.lobby, lobby_requests::reply(*reply)).0, out: first.out },
            text::views(lost@),
        );
    }
    if gone {
        l.left = true;
        l.polled = false;
        tell(out, LobbyChange::Disconnected { lobby: l.number });
    }
    if !joining {
        announce_lobby_members(l, out);
        if !gone {
            emit_updated(l, out, delta, false);
        }
    }
}

/// The address of a lobby that a reply grants: a code, the identifier, and the connection. The code
/// is 0 where there is an address.
pub open spec fn granted_address(r: Option<(u16, Seq<char>)>) -> (i32, Seq<char>, Seq<char>) {
    match r {
        Some(p) => if p.0 != 200 {
            (lobby_requests::error_code(p.0, p.1), Seq::empty(), Seq::empty())
        } else {
            match lobby_json::field(lobby_model::utf8(p.1), "LobbyId"@) {
                Some(id) => {
                    let connection = match lobby_json::field(
                        lobby_model::utf8(p.1),
                        "ConnectionString"@,
                    ) {
                        Some(c) => c,
                        None => "lan."@ + id,
                    };
                    if id.contains('\0') || connection.contains('\0') {
                        (
                            lobby_requests::E_PF_SERVICE_MALFORMED_RESPONSE,
                            Seq::empty(),
                            Seq::empty(),
                        )
                    } else {
                        (0, id, connection)
                    }
                },
                None => (
                    lobby_requests::E_PF_SERVICE_MALFORMED_RESPONSE,
                    Seq::empty(),
                    Seq::empty(),
                ),
            }
        },
        None => (lobby_requests::E_PF_SERVICE_UNEXPECTED, Seq::empty(), Seq::empty()),
    }
}

/// Reads the address of a lobby that a reply grants.
fn read_address(r: &Option<(u16, String)>) -> (a: Result<(String, String), i32>)
    ensures
        match a {
            Ok(p) => granted_address(lobby_requests::reply(*r)) == (0i32, p.0@, p.1@),
            Err(code) => code != 0 && granted_address(lobby_requests::reply(*r)) == (
                code,
                Seq::<char>::empty(),
                Seq::<char>::empty(),
            ),
        },
{
    let t = match r {
        Some(p) => {
            if p.0 != 200 {
                return Err(lobby_requests::broker_error_code(p.0, p.1.as_str()));
            }
            p.1.as_str()
        },
        None => {
            return Err(lobby_requests::E_PF_SERVICE_UNEXPECTED);
        },
    };
    let b = t.as_bytes();
    let id = match lobby_json::json_str(b, "LobbyId") {
        Some(id) => id,
        None => {
            return Err(lobby_requests::E_PF_SERVICE_MALFORMED_RESPONSE);
        },
    };
    let connection = match lobby_json::json_str(b, "ConnectionString") {
        Some(c) => c,
        None => {
            let mut c = String::new();
            c.append("lan.");
            c.append(id.as_str());
            assert(c@ =~= "lan."@ + id@);
            c
        },
    };
    if !lobby_model::can_keep(id.as_str()) || !lobby_model::can_keep(connection.as_str()) {
        return Err(lobby_requests::E_PF_SERVICE_MALFORMED_RESPONSE);
    }
    Ok((id, connection))
}

/// How many a reply says can take part, or as many as were asked for where those are more.
pub open spec fn granted_max(r: Option<(u16, Seq<char>)>, asked: u32) -> u32 {
    match r {
        Some(p) => {
            let told = lobby_json::told_max(lobby_model::utf8(p.1));
            if told > asked { told } else { asked }
        },
        None => asked,
    }
}

/// A creation ends. Where the broker refused it, the title is told only that; else it is told of
/// the owner first.
pub open spec fn completing_create(
    s: Stage,
    r: Option<(u16, Seq<char>)>,
    owner: EntityView,
    asked: u32,
    context: u64,
) -> Stage {
    let (code, id, connection) = granted_address(r);
    let told = if code != 0 {
        s
    } else {
        announcing(
            Stage {
                lobby: LobbyView {
                    id,
                    connection,
                    max_players: granted_max(r, asked),
                    pending: false,
                    polled: !s.lobby.left,
                    ..s.lobby
                },
                out: s.out,
            },
            owner,
        )
    };
    Stage {
        lobby: told.lobby,
        out: told.out.push(
            LobbyChangeView::CreateCompleted { result: code, context, lobby: s.lobby.number },
        ),
    }
}

/// Ends a creation.
pub fn complete_create(
    l: &mut Lobby,
    out: &mut Vec<LobbyChange>,
    r: &Option<(u16, String)>,
    owner: &Entity,
    asked: u32,
    context: u64,
)
    ensures
        stage(*final(l), final(out)@) == completing_create(
            stage(*old(l), old(out)@),
            lobby_requests::reply(*r),
            owner@,
            asked,
            context,
        ),
{
    let mut result: i32 = 0;
    match read_address(r) {
        Ok(p) => {
            let told: u32 = match r {
                Some(p) => lobby_json::json_max_players(p.1.as_str().as_bytes()),
                None => asked,
            };
            l.id = p.0;
            l.connection = p.1;
            l.max_players = if told > asked {
                told
            } else {
                asked
            };
            l.pending = false;
            l.polled = !l.left;
            emit_member_added(l, out, owner);
        },
        Err(code) => {
            result = code;
        },
    }
    tell(out, LobbyChange::CreateCompleted { result, context, lobby: l.number });
}

/// The lobby that a joining leads to, by the look at it that follows: a code and the lobby. Where
/// the reply tells of no lobby, only its address is known.
pub open spec fn joined_lobby(
    r: Option<(u16, Seq<char>)>,
    id: Seq<char>,
    connection: Seq<char>,
    number: u64,
) -> (i32, LobbyView) {
    match r {
        Some(p) => if p.0 != 200 {
            (lobby_requests::error_code(p.0, p.1), lobby_model::blank_lobby(number))
        } else {
            match lobby_model::told_lobby(p.1, number) {
                Some(l) => (0, l),
                None => if id.contains('\0') || connection.contains('\0') {
                    (
                        lobby_requests::E_PF_SERVICE_MALFORMED_RESPONSE,
                        lobby_model::blank_lobby(number),
                    )
                } else {
                    (
                        0,
                        LobbyView {
                            id,
                            connection,
                            max_players: lobby_json::told_max(lobby_model::utf8(p.1)),
                            ..lobby_model::blank_lobby(number)
                        },
                    )
                },
            }
        },
        None => (lobby_requests::E_PF_SERVICE_UNEXPECTED, lobby_model::blank_lobby(number)),
    }
}

/// Reads the lobby that a joining leads to.
fn read_joined(
    r: &Option<(u16, String)>,
    id: &str,
    connection: &str,
    number: u64,
) -> (a: Result<Lobby, i32>)
    ensures
        match a {
            Ok(l) => joined_lobby(lobby_requests::reply(*r), id@, connection@, number) == (
                0i32,
                l@,
            ),
            Err(code) => code != 0 && joined_lobby(
                lobby_requests::reply(*r),
                id@,
                connection@,
                number,
            ) == (code, lobby_model::blank_lobby(number)),
        },
{
    let t = match r {
        Some(p) => {
            if p.0 != 200 {
                return Err(lobby_requests::broker_error_code(p.0, p.1.as_str()));
            }
            p.1.as_str()
        },
        None => {
            return Err(lobby_requests::E_PF_SERVICE_UNEXPECTED);
        },
    };
    if let Some(l) = lobby_model::lobby_from_json(t, number) {
        return Ok(l);
    }
    if !lobby_model::can_keep(id) || !lobby_model::can_keep(connection) {
        return Err(lobby_requests::E_PF_SERVICE_MALFORMED_RESPONSE);
    }
    let mut l = Lobby::blank(number);
    l.id = id.to_owned();
    l.connection = connection.to_owned();
    l.max_players = lobby_json::json_max_players(t.as_bytes());
    Ok(l)
}

/// A lobby with the joining participant in it.
pub open spec fn with_joiner(
    l: LobbyView,
    joiner: EntityView,
    member: Seq<(Seq<char>, Seq<char>)>,
) -> LobbyView {
    LobbyView {
        members: if lobby_delta::entity_place(l.members, joiner.id) is None {
            l.members.push(joiner)
        } else {
            l.members
        },
        member_props: assoc::with(
            l.member_props,
            joiner.id,
            lobby_model::member_values(joiner.id, member),
        ),
        ..l
    }
}

/// What a look at a lobby that was joined does: the title is told where it failed or where the
/// lobby is ready; else the joining waits.
pub open spec fn reading_joined(
    s: Stage,
    r: Option<(u16, Seq<char>)>,
    joiner: EntityView,
    id: Seq<char>,
    connection: Seq<char>,
    member: Seq<(Seq<char>, Seq<char>)>,
) -> (Stage, bool) {
    let (code, told) = joined_lobby(r, id, connection, s.lobby.number);
    if code != 0 {
        (
            Stage {
                lobby: s.lobby,
                out: s.out.push(
                    LobbyChangeView::JoinCompleted {
                        result: code,
                        joiner,
                        lobby: s.lobby.number,
                    },
                ),
            },
            false,
        )
    } else {
        let l = LobbyView {
            left: s.lobby.left,
            polled: !s.lobby.left,
            ..with_joiner(told, joiner, member)
        };
        if lobby_requests::is_ready(l) {
            (completing_join(Stage { lobby: l, out: s.out }, joiner), false)
        } else {
            (Stage { lobby: l, out: s.out }, true)
        }
    }
}

/// Takes the look at a lobby that was joined over; the result tells whether the joining waits.
pub fn read_join(
    l: &mut Lobby,
    out: &mut Vec<LobbyChange>,
    r: &Option<(u16, String)>,
    joiner: &Entity,
    id: &str,
    connection: &str,
    member: &Vec<(String, String)>,
) -> (waits: bool)
    ensures
        (stage(*final(l), final(out)@), waits) == reading_joined(
            stage(*old(l), old(out)@),
            lobby_requests::reply(*r),
            joiner@,
            id@,
            connection@,
            assoc::pairs(member@),
        ),
{
    match read_joined(r, id, connection, l.number) {
        Err(code) => {
            tell(
                out,
                LobbyChange::JoinCompleted {
                    result: code,
                    joiner: joiner.copy(),
                    lobby: l.number,
                },
            );
            false
        },
        Ok(told) => {
            let ghost fresh = told@;
            let mut told = told;
            if lobby_delta::find_entity(&told.members, joiner.id.as_str()).is_none() {
                let e = joiner.copy();
                told.members.push(e);
                assert(told@.members =~= fresh.members.push(joiner@));
            }
            let bag = lobby_model::member_bag(joiner.id.as_str(), member);
            assoc::put(&mut told.member_props, joiner.id.as_str(), bag);
            told.left = l.left;
            told.polled = !l.left;
            *l = told;
            if lobby_requests::lobby_ready_for_guest(l) {
                emit_join_completed(l, out, joiner);
                false
            } else {
                true
            }
        },
    }
}

/// An update ends. What it changed is told after that, where the broker granted it.
pub open spec fn completing_update(
    s: Stage,
    r: Option<(u16, Seq<char>)>,
    user: Option<EntityView>,
    context: u64,
    delta: DeltaView,
) -> Stage {
    let done = Stage {
        lobby: s.lobby,
        out: s.out.push(
            LobbyChangeView::PostUpdateCompleted { lobby: s.lobby.number, user, context },
        ),
    };
    if lobby_requests::is_granted(r) { updating(done, delta, false) } else { done }
}

/// Ends an update.
pub fn complete_update(
    l: &mut Lobby,
    out: &mut Vec<LobbyChange>,
    r: &Option<(u16, String)>,
    user: Option<Entity>,
    context: u64,
    delta: Delta,
)
    ensures
        stage(*final(l), final(out)@) == completing_update(
            stage(*old(l), old(out)@),
            lobby_requests::reply(*r),
            lobby_model::opt_entity(user),
            context,
            delta@,
        ),
{
    tell(out, LobbyChange::PostUpdateCompleted { lobby: l.number, user, context });
    if lobby_requests::code_of(r) == 0 {
        emit_updated(l, out, delta, false);
    }
}

/// A participant is told of once, however often it is named.
pub proof fn member_is_announced_once(s: Stage, m: EntityView)
    ensures
        announcing(announcing(s, m), m) == announcing(s, m),
        s.lobby.announced.no_duplicates() ==> announcing(s, m).lobby.announced.no_duplicates(),
{
    let a = s.lobby.announced;
    assert(a.push(m.id)[a.len() as int] == m.id);
    assert(a.push(m.id).contains(m.id));
    if s.lobby.announced.no_duplicates() && !a.contains(m.id) {
        let b = a.push(m.id);
        assert forall|i: int, j: int| 0 <= i < b.len() && 0 <= j < b.len() && i != j implies b[i]
            != b[j] by {
            if i == a.len() {
                assert(a[j] != m.id);
            } else if j == a.len() {
                assert(a[i] != m.id);
            }
        }
    }
}

/// From a place on, a queue holds only news of participants who came.
pub open spec fn only_arrivals(v: Seq<LobbyChangeView>, from: int) -> bool {
    forall|k: int| from <= k < v.len() ==> (#[trigger] v[k]) is MemberAdded
}

proof fn lemma_announcing_each_adds(s: Stage, members: Seq<EntityView>, from: int)
    requires
        0 <= from <= s.out.len(),
        only_arrivals(s.out, from),
    ensures
        announcing_each(s, members).out.len() >= s.out.len(),
        announcing_each(s, members).out.take(from) == s.out.take(from),
        only_arrivals(announcing_each(s, members).out, from),
    decreases members.len(),
{
    if members.len() > 0 {
        lemma_announcing_each_adds(s, members.drop_last(), from);
        let a = announcing_each(s, members.drop_last());
        assert(announcing(a, members.last()).out.take(from) =~= a.out.take(from));
    }
}

/// A joining that ends is told in order: first who is there, then the lock, and then that the
/// title has joined. From then on the lobby is there.
pub proof fn join_is_told_in_order(s: Stage, joiner: EntityView)
    ensures
        ({
            let r = completing_join(s, joiner);
            let n = r.out.len();
            &&& n >= s.out.len() + 2
            &&& r.out.take(s.out.len() as int) == s.out
            &&& only_arrivals(r.out.take(n - 2), s.out.len() as int)
            &&& r.out[n - 2] matches LobbyChangeView::Updated { lobby, delta } && lobby
                == s.lobby.number && delta.membership_lock
            &&& r.out[n - 1] == (LobbyChangeView::JoinCompleted {
                result: 0,
                joiner,
                lobby: s.lobby.number,
            })
            &&& !r.lobby.pending
            &&& r.lobby.lock_known
        }),
{
    let from = s.out.len() as int;
    let open = Stage { lobby: LobbyView { pending: false, ..s.lobby }, out: s.out };
    let first = announcing(open, open.lobby.owner);
    assert(first.out.take(from) =~= s.out);
    lemma_announcing_each_adds(first, open.lobby.members, from);
    lemma_announcing_each_keeps(first, open.lobby.members);
    let all = announcing_all(open);
    let told = announcing(all, joiner);
    assert(told.out.take(from) =~= all.out.take(from));
    let r = completing_join(s, joiner);
    assert(r.out.take(r.out.len() - 2) =~= told.out);
    assert(r.out.take(from) =~= told.out.take(from));
}

/// Of a creation that the broker refuses the title is told that it failed, and nothing else; the
/// lobby never comes to be.
pub proof fn refused_create_adds_nobody(
    s: Stage,
    r: Option<(u16, Seq<char>)>,
    owner: EntityView,
    asked: u32,
    context: u64,
)
    requires
        !lobby_requests::is_granted(r),
    ensures
        ({
            let t = completing_create(s, r, owner, asked, context);
            &&& t.lobby == s.lobby
            &&& t.out == s.out.push(
                LobbyChangeView::CreateCompleted {
                    result: lobby_requests::reply_code(r),
                    context,
                    lobby: s.lobby.number,
                },
            )
            &&& lobby_requests::reply_code(r) != 0
        }),
{
}

/// Of a creation that succeeds the title is told after it was told of the owner, unless it knew of
/// the owner; the lobby is there then.
pub proof fn granted_create_tells_the_owner_first(
    s: Stage,
    r: Option<(u16, Seq<char>)>,
    owner: EntityView,
    asked: u32,
    context: u64,
)
    requires
        granted_address(r).0 == 0,
        owner.id.len() > 0,
        owner.id != "owner"@,
        !s.lobby.announced.contains(owner.id),
    ensures
        ({
            let t = completing_create(s, r, owner, asked, context);
            &&& t.out == s.out.push(
                LobbyChangeView::MemberAdded { lobby: s.lobby.number, member: owner },
            ).push(
                LobbyChangeView::CreateCompleted { result: 0, context, lobby: s.lobby.number },
            )
            &&& !t.lobby.pending
            &&& t.lobby.id == granted_address(r).1
        }),
{
}

/// A lobby that the broker does not have any more is told of as gone, and it is not polled after
/// that.
pub proof fn gone_lobby_is_told(s: Stage, r: Option<(u16, Seq<char>)>, joining: bool)
    requires
        r matches Some(p) && p.0 != 200,
    ensures
        refreshing(s, r, joining).lobby.left,
        !refreshing(s, r, joining).lobby.polled,
        refreshing(s, r, joining).out.len() > s.out.len(),
        refreshing(s, r, joining).out[s.out.len() as int] == (LobbyChangeView::Disconnected {
            lobby: s.lobby.number,
        }),
{
    let removed = removing(Stage { lobby: s.lobby, out: s.out }, Seq::empty());
    let cut = disconnecting(removed);
    let from = cut.out.len() as int;
    let first = announcing(cut, cut.lobby.owner);
    lemma_announcing_each_adds(first, cut.lobby.members, from);
    lemma_announcing_each_keeps(first, cut.lobby.members);
    let all = announcing_all(cut);
    assert(first.out.take(from) =~= cut.out);
    assert(all.out.take(from)[s.out.len() as int] == cut.out[s.out.len() as int]);
}

/// Where the broker cannot be reached, nothing that the title knows of a lobby changes.
pub proof fn silence_keeps_the_lobby(s: Stage, joining: bool)
    ensures
        ({
            let l = refreshing(s, None, joining).lobby;
            &&& l.props == s.lobby.props
            &&& l.search == s.lobby.search
            &&& l.members == s.lobby.members
            &&& l.member_props == s.lobby.member_props
            &&& l.left == s.lobby.left
            &&& l.polled == s.lobby.polled
        }),
{
    let removed = removing(s, Seq::empty());
    let first = announcing(removed, removed.lobby.owner);
    lemma_announcing_each_keeps(first, removed.lobby.members);
}

}
