//! What the title's calls lead to: what the broker is asked, and what the title is told.
use crate::assoc;
use crate::broker_queue;
use crate::broker_queue::ResultView;
use crate::bytes;
use crate::delivery::{ChangeView, Returned};
use crate::descriptor;
use crate::descriptor::{DescriptorView, Ip4};
use crate::handle;
use crate::handle::HandleView;
use crate::lobby_client;
use crate::lobby_client::{ClientView, CreateConfig, JobView, TaskView};
use crate::lobby_model;
use crate::lobby_model::{EntityView, LobbyView};
use crate::lobby_requests;
use crate::lobby_requests::Search;
use crate::lobby_rows;
use crate::lobby_stage::LobbyChangeView;
use crate::lobby_update;
use crate::lobby_update::{DataUpdate, MemberData};
use crate::party;
use crate::party::{NetworkView, PeerView};
use crate::request_laws;
use crate::request_laws::said;
use crate::text;
use crate::wire;
use vstd::prelude::*;

verus! {

// Lobbies

/// A client asks one thing more, in its present life.
pub open spec fn asks(c: ClientView, d: ClientView, j: JobView) -> bool {
    d.jobs == c.jobs.push(j) && j.generation == c.generation
}

/// Who is meant where the title names somebody.
pub open spec fn is_named(e: Option<EntityView>, id: Seq<char>) -> bool {
    e is Some && e->0.id == id && id.len() > 0
}

/// A title that creates a lobby asks for it as it was configured: for as many players, within the
/// limits, and with that owner. It has the lobby at once, as it asked for it, still pending; the
/// others stay.
pub proof fn creation_is_asked_for(
    c: ClientView,
    creator: Option<EntityView>,
    config: CreateConfig,
    values: Seq<(Seq<char>, Seq<char>)>,
    context: u64,
    id: Seq<char>,
)
    requires
        is_named(creator, id),
        1 <= config.max <= 32,
        config.owner_migration_policy <= 3,
        config.access_policy <= 2,
        c.lobbies.len() <= u64::MAX,
        request_laws::has_plain_names(lobby_client::asked_props(Some(config))),
        request_laws::has_plain_names(lobby_client::asked_search(Some(config))),
        request_laws::has_plain_names(
            lobby_model::member_values(id, lobby_update::listed(values)),
        ),
    ensures
        ({
            let d = c.creating(creator, Some(config), values, context);
            let j = d.jobs.last();
            let l = d.lobbies.last();
            let r = said(j.body);
            &&& asks(c, d, j)
            &&& j.post
            &&& assoc::lookup(r, "MaxPlayers"@) == Some(text::decimal(config.max as nat))
            &&& assoc::lookup(r, "OwnerMigrationPolicy"@) == Some(
                text::decimal(config.owner_migration_policy as nat),
            )
            &&& assoc::lookup(r, "Owner"@) == Some(
                bytes::text_of(lobby_requests::entity_text(id, "title_player_account"@)),
            )
            &&& d.lobbies.drop_last() == c.lobbies
            &&& l.number == c.lobbies.len() && l.pending && !l.left
            &&& l.max_players == config.max && l.access_policy == config.access_policy
            &&& l.owner.id == id && l.members.len() == 1 && l.members[0].id == id
            &&& j.task matches TaskView::Create { lobby, owner, max, context: x } && lobby
                == c.lobbies.len() && owner == l.owner && max == config.max && x == context
            &&& d.pending == c.pending
        }),
{
    request_laws::create_request_says_what_is_asked(
        config.max,
        config.owner_migration_policy,
        lobby_client::asked_props(Some(config)),
        lobby_client::asked_search(Some(config)),
        id,
        lobby_update::listed(values),
    );
    assert(c.creating(creator, Some(config), values, context).lobbies.drop_last() =~= c.lobbies);
}

/// A title that joins a lobby asks for it by the connection string that it was given, and keeps
/// what it needs for the answer.
pub proof fn joining_is_asked_for(
    c: ClientView,
    joiner: Option<EntityView>,
    connection: Seq<char>,
    values: Seq<(Seq<char>, Seq<char>)>,
    id: Seq<char>,
)
    requires
        is_named(joiner, id),
        c.lobbies.len() <= u64::MAX,
        request_laws::has_plain_names(
            lobby_model::member_values(id, lobby_update::listed(values)),
        ),
    ensures
        ({
            let d = c.joining(joiner, connection, values);
            let j = d.jobs.last();
            let r = said(j.body);
            &&& asks(c, d, j)
            &&& j.post
            &&& assoc::lookup(r, "ConnectionString"@) == Some(connection)
            &&& assoc::lookup(r, "MemberEntity"@) == Some(
                bytes::text_of(lobby_requests::entity_text(id, "title_player_account"@)),
            )
            &&& d.lobbies.drop_last() == c.lobbies
            &&& d.lobbies.last().number == c.lobbies.len() && d.lobbies.last().pending
            &&& j.task matches TaskView::Join { lobby, joiner: e, connection: x, .. } && lobby
                == c.lobbies.len() && e.id == id && x == connection
            &&& d.pending == c.pending
        }),
{
    request_laws::join_request_says_what_is_asked(connection, id, lobby_update::listed(values));
    assert(c.joining(joiner, connection, values).lobbies.drop_last() =~= c.lobbies);
}

/// A title that searches asks with the filter, the order and the number that it gives, in the name
/// of the searcher, and changes no lobby.
pub proof fn search_is_asked_for(
    c: ClientView,
    searcher: Option<EntityView>,
    search: Search,
    context: u64,
    id: Seq<char>,
)
    requires
        is_named(searcher, id),
    ensures
        ({
            let d = c.finding(searcher, search, context);
            let j = d.jobs.last();
            let r = said(j.body);
            &&& asks(c, d, j)
            &&& j.post
            &&& assoc::lookup(r, "EntityId"@) == Some(id)
            &&& search.filter@.len() > 0 ==> assoc::lookup(r, "Filter"@) == Some(search.filter@)
            &&& search.sort@.len() > 0 ==> assoc::lookup(r, "Sort"@) == Some(search.sort@)
            &&& search.count matches Some(n) ==> assoc::lookup(r, "ClientSearchResultCount"@)
                == Some(text::decimal(n as nat))
            &&& j.task matches TaskView::Find { searcher: e, context: x } && e.id == id && x
                == context
            &&& d.lobbies == c.lobbies && d.pending == c.pending
        }),
{
    request_laws::search_request_says_what_is_asked(id, search);
}

/// A title that leaves a lobby asks to leave that lobby, in its own name; the lobby counts as left
/// and is not looked at any more, and the others stay.
pub proof fn leaving_is_asked_for(c: ClientView, lobby: int, other: int)
    requires
        0 <= lobby < c.lobbies.len(),
        request_laws::is_plain(c.lobbies[lobby].id),
    ensures
        ({
            let d = c.leaving(lobby);
            let j = d.jobs.last();
            let r = said(j.body);
            &&& asks(c, d, j)
            &&& j.task == TaskView::Leave
            &&& assoc::lookup(r, "LobbyId"@) == Some(c.lobbies[lobby].id)
            &&& c.local.len() > 0 ==> assoc::lookup(r, "EntityId"@) == Some(c.local)
            &&& c.local.len() == 0 && c.lobbies[lobby].owner.id.len() > 0 ==> assoc::lookup(
                r,
                "EntityId"@,
            ) == Some(c.lobbies[lobby].owner.id)
            &&& d.lobbies.len() == c.lobbies.len()
            &&& d.lobbies[lobby].left && !d.lobbies[lobby].polled
            &&& 0 <= other < c.lobbies.len() && other != lobby ==> d.lobbies[other]
                == c.lobbies[other]
        }),
{
    let l = c.lobbies[lobby];
    request_laws::look_and_leave_requests_say_what_is_asked(
        l.id,
        if c.local.len() > 0 { c.local } else { l.owner.id },
    );
}

/// A title that changes a lobby sees the change at once and asks for it; the other lobbies stay.
pub proof fn update_is_asked_for(
    c: ClientView,
    lobby: int,
    user: Option<EntityView>,
    data: Option<DataUpdate>,
    values: Option<MemberData>,
    context: u64,
    other: int,
)
    requires
        0 <= lobby < c.lobbies.len(),
        request_laws::is_writable(
            lobby_update::with_update(c.lobbies[lobby], data, values, user, c.local),
            lobby_update::asked_update(data, values, user, c.local),
            c.local,
        ),
    ensures
        ({
            let d = c.posting(lobby, user, data, values, context);
            let j = d.jobs.last();
            let after = lobby_update::with_update(c.lobbies[lobby], data, values, user, c.local);
            &&& asks(c, d, j)
            &&& assoc::lookup(said(j.body), "LobbyId"@) == Some(c.lobbies[lobby].id)
            &&& assoc::lookup(said(j.body), "LobbyData"@) == Some(
                bytes::text_of(lobby_model::object_text(d.lobbies[lobby].props)),
            )
            &&& assoc::lookup(said(j.body), "SearchData"@) == Some(
                bytes::text_of(lobby_model::object_text(d.lobbies[lobby].search)),
            )
            &&& d.lobbies[lobby] == after
            &&& d.lobbies.len() == c.lobbies.len()
            &&& 0 <= other < c.lobbies.len() && other != lobby ==> d.lobbies[other]
                == c.lobbies[other]
            &&& d.pending == c.pending
        }),
{
    let after = lobby_update::with_update(c.lobbies[lobby], data, values, user, c.local);
    request_laws::update_request_says_what_is_asked(
        after,
        lobby_update::asked_update(data, values, user, c.local),
        c.local,
    );
}

/// A joining that is refused is told to the title with an error; one that is granted is followed
/// by a look at the lobby that the broker names, for the same joiner.
pub proof fn joining_is_answered(
    c: ClientView,
    lobby: int,
    joiner: EntityView,
    connection: Seq<char>,
    values: Seq<(Seq<char>, Seq<char>)>,
    r: Option<(u16, Seq<char>)>,
)
    requires
        0 <= lobby < c.lobbies.len(),
        c.live,
    ensures
        ({
            let task = TaskView::Join { lobby, joiner, connection, values };
            let d = c.after_reply(c.generation, task, r);
            let granted = r matches Some(p) && p.0 == 200;
            &&& d.lobbies == c.lobbies
            &&& !granted ==> d.jobs == c.jobs && d.pending.len() == c.pending.len() + 1 && (
            d.pending.last() matches LobbyChangeView::JoinCompleted { result, joiner: e, lobby: n }
                && result != 0 && e == joiner && n == c.lobbies[lobby].number)
            &&& granted && d.jobs.len() > c.jobs.len() ==> d.pending == c.pending && (
            d.jobs.last().task matches TaskView::JoinRead {
                lobby: at,
                joiner: e,
                connection: x,
                values: v,
                ..
            } && at == lobby && e == joiner && x == connection && v == values)
        }),
{
}

/// An answer about one lobby changes no other.
pub proof fn answer_touches_one_lobby(
    c: ClientView,
    lobby: int,
    owner: EntityView,
    max: u32,
    context: u64,
    user: Option<EntityView>,
    delta: crate::lobby_delta::DeltaView,
    r: Option<(u16, Seq<char>)>,
    other: int,
)
    requires
        0 <= lobby < c.lobbies.len(),
        0 <= other < c.lobbies.len(),
        other != lobby,
    ensures
        c.after_reply(
            c.generation,
            TaskView::Create { lobby, owner, max, context },
            r,
        ).lobbies[other] == c.lobbies[other],
        c.after_reply(
            c.generation,
            TaskView::Update { lobby, user, context, delta },
            r,
        ).lobbies[other] == c.lobbies[other],
{
}

/// A search that failed is told with its error and without rows; one that found nothing is told as
/// a success without rows.
pub proof fn search_is_answered(
    c: ClientView,
    searcher: EntityView,
    context: u64,
    r: Option<(u16, Seq<char>)>,
)
    requires
        !(r matches Some(p) && p.0 == 200),
    ensures
        ({
            let d = c.after_find(searcher, context, r);
            &&& d.pending.len() == c.pending.len() + 1
            &&& d.pending.last() matches LobbyChangeView::FindCompleted {
                result,
                searcher: e,
                context: x,
                rows,
            } && result != 0 && e == searcher && x == context && rows.len() == 0
        }),
{
}

/// Of the lobbies that were found those are told that were kept: the last decision ends the
/// search with the rows of those kept before and, where it is kept, of the last one.
pub proof fn kept_lobbies_are_told(
    c: ClientView,
    searcher: EntityView,
    context: u64,
    last: Seq<char>,
    kept: Seq<Seq<char>>,
    keep: bool,
)
    ensures
        ({
            let d = c.sifted(searcher, context, seq![last], kept, keep);
            &&& d.pending.len() == c.pending.len() + 1
            &&& d.pending.last() == (LobbyChangeView::FindCompleted {
                result: 0,
                searcher,
                context,
                rows: lobby_rows::rows_of(if keep { kept.push(last) } else { kept }),
            })
            &&& d.lobbies == c.lobbies && d.jobs == c.jobs
        }),
{
    assert(seq![last].drop_first() =~= Seq::<Seq<char>>::empty());
}

/// A lobby that was found is dropped where the broker does not have it any more or its owner is
/// not among the peers of its network, of which there may be none; it is kept where the broker does
/// not answer.
pub proof fn found_lobby_is_looked_at(
    body: Seq<char>,
    status: u16,
    owner: Seq<char>,
    before: Seq<char>,
    after: Seq<char>,
)
    ensures
        lobby_requests::probed(None) is Keep,
        status != 200 ==> lobby_requests::probed(Some((status, body))) is Drop,
        lobby_requests::owner_takes_part(None, owner),
        lobby_requests::owner_takes_part(
            Some(before + ("\"entity_id\":\""@ + owner + "\""@) + after),
            owner,
        ),
        !lobby_requests::owner_takes_part(Some(Seq::empty()), owner),
{
    let p = "\"entity_id\":\""@ + owner + "\""@;
    let s = before + p + after;
    assert(s.subrange(before.len() as int, before.len() as int + p.len()) =~= p);
    lemma_found(s, p, before.len() as int);
    reveal_strlit("\"entity_id\":\"");
    assert(p.len() > 0);
}

proof fn lemma_found(s: Seq<char>, p: Seq<char>, k: int)
    requires
        0 <= k <= s.len(),
        k + p.len() <= s.len(),
        s.subrange(k, k + p.len()) == p,
    ensures
        text::find_text(s, p) is Some,
    decreases k,
{
    if k == 0 {
        assert(s.take(p.len() as int) =~= s.subrange(0, p.len() as int));
    } else {
        let t = s.drop_first();
        assert(t.subrange(k - 1, k - 1 + p.len()) =~= s.subrange(k, k + p.len()));
        lemma_found(t, p, k - 1);
    }
}

/// Every lobby that is to be looked at is asked for when it is time, once, under its name.
pub proof fn polled_lobby_is_looked_at(c: ClientView, now: u64, i: int)
    requires
        0 <= i < c.lobbies.len(),
        c.lobbies[i].polled,
        !c.lobbies[i].asked,
        c.last_poll is None || now > c.last_poll->0 + 250,
        request_laws::is_plain(c.lobbies[i].id),
    ensures
        ({
            let d = c.starting(now);
            &&& d.lobbies[i].asked
            &&& d.last_poll == Some(now)
            &&& exists|k: int|
                c.jobs.len() <= k < d.jobs.len() && (#[trigger] d.jobs[k]).task
                    == (TaskView::Refresh { lobby: i }) && assoc::lookup(
                    said(d.jobs[k].body),
                    "LobbyId"@,
                ) == Some(c.lobbies[i].id)
        }),
{
    let n = c.lobbies.len();
    request_laws::look_and_leave_requests_say_what_is_asked(c.lobbies[i].id, Seq::empty());
    lemma_looking(c, n, i);
    let e = c.looking(n);
    let k = choose|k: int|
        c.jobs.len() <= k < e.jobs.len() && (#[trigger] e.jobs[k]).task == (TaskView::Refresh {
            lobby: i,
        }) && e.jobs[k].body == lobby_requests::get_text(c.lobbies[i].id);
    assert(c.starting(now).jobs[k] == e.jobs[k]);
}

proof fn lemma_looking(c: ClientView, n: nat, i: int)
    requires
        0 <= i < n <= c.lobbies.len(),
        c.lobbies[i].polled,
        !c.lobbies[i].asked,
    ensures
        ({
            let d = c.looking(n);
            &&& d.jobs.len() >= c.jobs.len()
            &&& d.lobbies.len() == c.lobbies.len()
            &&& d.lobbies[i].asked
            &&& exists|k: int|
                c.jobs.len() <= k < d.jobs.len() && (#[trigger] d.jobs[k]).task
                    == (TaskView::Refresh { lobby: i }) && d.jobs[k].body
                    == lobby_requests::get_text(c.lobbies[i].id)
        }),
    decreases n,
{
    let d = c.looking(n);
    let e = c.looking((n - 1) as nat);
    lemma_looking_len(c, (n - 1) as nat);
    if i < n - 1 {
        lemma_looking(c, (n - 1) as nat, i);
        let k = choose|k: int|
            c.jobs.len() <= k < e.jobs.len() && (#[trigger] e.jobs[k]).task == (TaskView::Refresh {
                lobby: i,
            }) && e.jobs[k].body == lobby_requests::get_text(c.lobbies[i].id);
        assert(d.jobs[k] == e.jobs[k]);
    } else {
        assert(d.jobs[e.jobs.len() as int].task == (TaskView::Refresh { lobby: i }));
    }
}

proof fn lemma_looking_len(c: ClientView, n: nat)
    requires
        n <= c.lobbies.len(),
    ensures
        c.looking(n).jobs.len() >= c.jobs.len(),
        c.looking(n).lobbies.len() == c.lobbies.len(),
    decreases n,
{
    if n > 0 {
        lemma_looking_len(c, (n - 1) as nat);
    }
}

// Replies of the broker about peers

proof fn lemma_result_place(v: Seq<(u64, ResultView)>, epoch: u64)
    ensures
        match broker_queue::result_place(v, epoch) {
            Some(i) => 0 <= i < v.len() && v[i].0 == epoch && forall|j: int|
                0 <= j < i ==> (#[trigger] v[j]).0 != epoch,
            None => forall|j: int| 0 <= j < v.len() ==> (#[trigger] v[j]).0 != epoch,
        },
    decreases v.len(),
{
    if v.len() > 0 && v[0].0 != epoch {
        let t = v.drop_first();
        lemma_result_place(t, epoch);
        assert forall|j: int| 0 < j < v.len() implies v[j] == t[j - 1] by {}
    }
}

proof fn lemma_result_place_is(v: Seq<(u64, ResultView)>, epoch: u64, i: int)
    requires
        0 <= i < v.len(),
        v[i].0 == epoch,
        forall|j: int| 0 <= j < i ==> (#[trigger] v[j]).0 != epoch,
    ensures
        broker_queue::result_place(v, epoch) == Some(i),
    decreases i,
{
    if i > 0 {
        lemma_result_place_is(v.drop_first(), epoch, i - 1);
    }
}

/// The reply for a network is the last one that came for it; those for others stay.
pub proof fn last_reply_counts(v: Seq<(u64, ResultView)>, epoch: u64, r: ResultView, other: u64)
    ensures
        broker_queue::result_for(broker_queue::stashing(v, epoch, r), epoch) == Some(r),
        other != epoch ==> broker_queue::result_for(broker_queue::stashing(v, epoch, r), other)
            == broker_queue::result_for(v, other),
{
    let w = broker_queue::stashing(v, epoch, r);
    lemma_result_place(v, epoch);
    lemma_result_place(v, other);
    lemma_result_place(w, other);
    match broker_queue::result_place(v, epoch) {
        Some(i) => {
            assert forall|j: int| 0 <= j < i implies (#[trigger] w[j]).0 != epoch by {
                assert(w[j] == v[j]);
            }
            lemma_result_place_is(w, epoch, i);
        },
        None => {
            assert forall|j: int| 0 <= j < v.len() implies (#[trigger] w[j]).0 != epoch by {
                assert(w[j] == v[j]);
            }
            lemma_result_place_is(w, epoch, v.len() as int);
        },
    }
    if other != epoch {
        if let Some(i) = broker_queue::result_place(v, other) {
            assert forall|j: int| 0 <= j < i implies (#[trigger] w[j]).0 != other by {
                assert(v[j].0 != other);
            }
            assert(w[i] == v[i]);
            lemma_result_place_is(w, other, i);
        } else if let Some(i) = broker_queue::result_place(w, other) {
            assert(v[i].0 == other);
        }
    }
}

// Networks

/// A network that is created has the next number, the port and the address that were given and the
/// user; it waits to be connected to. The title is told of it, and the broker of its user.
pub proof fn network_is_created(
    h: HandleView,
    ident: Seq<char>,
    user: Seq<char>,
    udp_port: u16,
    ip: Ip4,
    now: u64,
)
    requires
        user.len() > 0,
    ensures
        ({
            let k = h.creating(ident, Some(user), udp_port, ip, now);
            let n = k.networks.last();
            let d = n.descriptor;
            &&& k.networks.drop_last() == h.networks
            &&& n.id == h.counters.network && n.local_user == Some(user)
            &&& n.udp_port == udp_port && n.bound && !n.connect_completed && n.remotes.len() == 0
            &&& d.stored_ip() == ip
            &&& d.opaque[0] + 256 * d.opaque[1] == udp_port
            &&& k.delivery.pending == h.delivery.pending.push(
                ChangeView::NetworkCreated { network: n.id },
            )
            &&& k.requests.contains(
                broker_queue::TaskView::Register {
                    network_id: d.id(),
                    entity: user,
                    udp_port,
                    quiet: false,
                },
            )
        }),
{
    let d = descriptor::descriptor_of(ident).with_port(udp_port).with_ip(ip);
    let k = h.creating(ident, Some(user), udp_port, ip, now);
    assert(k.networks.drop_last() =~= h.networks);
    let t = k.networks.last().registration(user, false);
    lemma_queued(h.requests, t);
}

/// A request that is queued is in the queue.
proof fn lemma_queued(q: Seq<broker_queue::TaskView>, t: broker_queue::TaskView)
    ensures
        broker_queue::queueing(q, t).contains(t),
{
    let w = broker_queue::queueing(q, t);
    lemma_same_place(q, t);
    lemma_register_place(q);
    if t is Register {
        match broker_queue::same_place(q, t) {
            Some(i) => {
                assert(w[i] == t);
            },
            None => {
                assert(w[w.len() - 1] == t);
            },
        }
    } else {
        assert(w[q.len() as int] == t);
    }
}

proof fn lemma_same_place(q: Seq<broker_queue::TaskView>, t: broker_queue::TaskView)
    ensures
        broker_queue::same_place(q, t) matches Some(i) ==> 0 <= i < q.len(),
    decreases q.len(),
{
    if q.len() > 0 {
        lemma_same_place(q.drop_first(), t);
    }
}

proof fn lemma_register_place(q: Seq<broker_queue::TaskView>)
    ensures
        broker_queue::register_place(q) matches Some(i) ==> 0 <= i < q.len(),
    decreases q.len(),
{
    if q.len() > 0 {
        lemma_register_place(q.drop_first());
    }
}

proof fn lemma_network_place(v: Seq<NetworkView>, id: u64)
    ensures
        match handle::network_place(v, id) {
            Some(i) => 0 <= i < v.len() && v[i].id == id,
            None => forall|i: int| 0 <= i < v.len() ==> (#[trigger] v[i]).id != id,
        },
    decreases v.len(),
{
    if v.len() > 0 && v[0].id != id {
        let t = v.drop_first();
        lemma_network_place(t, id);
        assert forall|i: int| 0 < i < v.len() implies v[i] == t[i - 1] by {}
    }
}

/// A network that is left is told to the title, and the broker is told that its user leaves it;
/// the other networks stay as they are.
pub proof fn leaving_a_network_is_told(h: HandleView, id: u64, i: int, other: NetworkView)
    requires
        handle::network_place(h.networks, id) == Some(i),
        h.networks[i].local_entity().len() > 0,
    ensures
        ({
            let k = h.leaving(id);
            &&& k.delivery.pending == h.delivery.pending.push(
                ChangeView::NetworkLeft { network: id },
            )
            &&& k.requests == h.requests.push(
                broker_queue::TaskView::Leave {
                    network_id: h.networks[i].descriptor.id(),
                    entity: h.networks[i].local_entity(),
                },
            )
            &&& other.id != id ==> (k.networks.contains(other) <==> h.networks.contains(other))
        }),
{
    let k = h.leaving(id);
    lemma_network_place(h.networks, id);
    if h.networks.contains(other) && other.id != id {
        let j = choose|j: int| 0 <= j < h.networks.len() && h.networks[j] == other;
        assert(k.networks[if j < i { j } else { j - 1 }] == other);
    }
    if k.networks.contains(other) && other.id != id {
        let j = choose|j: int| 0 <= j < k.networks.len() && k.networks[j] == other;
        assert(h.networks[if j < i { j } else { j + 1 }] == other);
    }
}

/// The title is told of the local endpoint of a network under the number that the endpoint has
/// from then on, and each endpoint has another number.
pub proof fn endpoint_is_told(
    h: HandleView,
    id: u64,
    i: int,
    user: Option<Seq<char>>,
    now: u64,
)
    requires
        handle::network_place(h.networks, id) == Some(i),
        !h.networks[i].peer_delivered,
        h.counters.uid < u16::MAX,
    ensures
        ({
            let k = h.endpoint_creating(id, user, now);
            &&& k.networks[i].local_endpoint == Some(h.counters.uid)
            &&& k.networks[i].local_user == user
            &&& k.networks[i].id == id
            &&& k.delivery.pending == h.delivery.pending.push(
                ChangeView::EndpointCreated { network: id, uid: h.counters.uid },
            )
            &&& k.counters.uid == h.counters.uid + 1
        }),
{
    lemma_network_place(h.networks, id);
}

/// A network counts as entered once the title gives back the news of its endpoint, and its peers
/// as known once it gives back the news of one; the news of other networks do not count.
pub proof fn returned_news_open_the_network(
    n: NetworkView,
    v: Seq<Option<Returned>>,
    i: int,
    uid: u16,
    entity: Seq<char>,
)
    requires
        0 <= i < v.len(),
    ensures
        v[i] == Some(
            Returned {
                kind: (ChangeView::EndpointCreated { network: n.id, uid }).kind(),
                network: Some(n.id),
            },
        ) ==> n.noting(v).endpoint_delivered,
        v[i] == Some(
            Returned {
                kind: (ChangeView::RemoteJoined { network: n.id, entity, uid }).kind(),
                network: Some(n.id),
            },
        ) ==> n.noting(v).peer_delivered,
        (forall|j: int| 0 <= j < v.len() && (#[trigger] v[j]) is Some ==> v[j]->0.network != Some(n.id))
            ==> n.noting(v) == n,
        n.endpoint_delivered ==> n.noting(v).endpoint_delivered,
        n.noting(v).remotes == n.remotes && n.noting(v).pending_rx == n.pending_rx,
{
    if forall|j: int| 0 <= j < v.len() && (#[trigger] v[j]) is Some ==> v[j]->0.network != Some(n.id) {
        assert(!handle::dealt_with(v, 10, n.id));
        assert(!handle::dealt_with(v, 12, n.id));
    }
}

/// A peer that is taken in is told to the title under its number, and the peers are greeted; one
/// that is not taken in is not told.
pub proof fn new_peer_is_told(h: HandleView, i: int, p: PeerView, listed: Seq<Seq<char>>)
    requires
        0 <= i < h.networks.len(),
    ensures
        ({
            let n = h.networks[i];
            let k = h.ensuring(i, p, listed);
            let new = n.takes_in(p.entity, listed.contains(p.entity));
            &&& new ==> k.delivery.pending == h.delivery.pending.push(
                ChangeView::RemoteJoined {
                    network: n.id,
                    entity: p.entity,
                    uid: h.counters.uid,
                },
            )
            &&& new ==> k.networks[i].knows(p.entity) && k.outbox.len() == h.outbox.len() + 1
                && k.outbox.last().network == n.id && k.outbox.last().parcel.kind
                == wire::KIND_HELLO
            &&& new && h.counters.uid < u16::MAX ==> k.counters.uid == h.counters.uid + 1
            &&& !new ==> k.delivery == h.delivery && k.outbox == h.outbox && k.counters
                == h.counters
            &&& forall|j: int|
                0 <= j < h.networks.len() && j != i ==> #[trigger] k.networks[j] == h.networks[j]
        }),
{
    let n = h.networks[i];
    if n.takes_in(p.entity, listed.contains(p.entity)) {
        party::peer_joins_once(n, p, listed.contains(p.entity), h.counters.uid, p);
    }
}

/// A network that is connected asks the broker for its peers, each time under another number, and
/// tells it every ten seconds that its user takes part.
pub proof fn broker_is_asked_for_peers(h: HandleView, i: int, now: u64)
    requires
        0 <= i < h.networks.len(),
        h.networks[i].connect_completed,
        !h.networks[i].poll_inflight,
        h.counters.poll < u64::MAX,
    ensures
        ({
            let n = h.networks[i];
            let k = h.asking(i, now);
            let due = now >= n.last_register + 10_000;
            &&& k.requests.last() == (broker_queue::TaskView::PollPeers {
                network_id: n.descriptor.id(),
                epoch: n.id,
                seq: h.counters.poll,
            })
            &&& k.counters.poll == h.counters.poll + 1
            &&& k.networks[i].poll_inflight && k.networks[i].poll_sent_at == now
            &&& due ==> k.networks[i].last_register == now
            &&& !due ==> k.networks[i].last_register == n.last_register && k.requests
                == h.requests.push(k.requests.last())
            &&& due && n.local_entity().len() > 0 ==> k.requests.contains(
                broker_queue::TaskView::Register {
                    network_id: n.descriptor.id(),
                    entity: n.local_entity(),
                    udp_port: n.udp_port,
                    quiet: true,
                },
            )
        }),
{
    let n = h.networks[i];
    let t = n.registration(n.local_entity(), true);
    lemma_queued(h.requests, t);
    let told = broker_queue::queueing(h.requests, t);
    let k = h.asking(i, now);
    if now >= n.last_register + 10_000 && n.local_entity().len() > 0 {
        let j = choose|j: int| 0 <= j < told.len() && told[j] == t;
        assert(k.requests[j] == t);
    }
}

/// The address that a record holds is the one that was put into it, and putting in the port or the
/// address changes nothing else.
pub proof fn record_holds_the_address(d: DescriptorView, ip: Ip4, port: u16)
    requires
        d.wf(),
    ensures
        ({
            let e = d.with_port(port).with_ip(ip);
            &&& e.stored_ip() == ip
            &&& e.opaque[0] + 256 * e.opaque[1] == port
            &&& e.id() == d.id()
            &&& e.wf()
        }),
{
}

/// A peer is reached under the address that it told; where that only means its own machine, under
/// the one in the record.
pub proof fn peer_is_reached(raw: Seq<char>, d: DescriptorView)
    ensures
        !crate::mesh::is_loopback(raw) ==> descriptor::peer_address(raw, d) == raw,
        crate::mesh::is_loopback(raw) && d.stored_ip().is_reachable() ==> descriptor::peer_address(
            raw,
            d,
        ) == d.stored_ip().shown(),
{
}

/// A reply that was taken out is gone, and those for others stay.
pub proof fn taken_reply_is_gone(v: Seq<(u64, ResultView)>, epoch: u64, other: u64)
    requires
        forall|i: int, j: int| 0 <= i < j < v.len() ==> (#[trigger] v[i]).0 != (#[trigger] v[j]).0,
    ensures
        broker_queue::result_for(broker_queue::without_result(v, epoch), epoch) is None,
        other != epoch ==> broker_queue::result_for(broker_queue::without_result(v, epoch), other)
            == broker_queue::result_for(v, other),
{
    let w = broker_queue::without_result(v, epoch);
    lemma_result_place(v, epoch);
    lemma_result_place(v, other);
    lemma_result_place(w, epoch);
    lemma_result_place(w, other);
    if let Some(i) = broker_queue::result_place(v, epoch) {
        assert forall|j: int| 0 <= j < w.len() implies #[trigger] w[j] == v[if j < i {
            j
        } else {
            j + 1
        }] by {}
        if let Some(k) = broker_queue::result_place(w, epoch) {
            assert(v[if k < i { k } else { k + 1 }].0 == epoch);
        }
        if other != epoch {
            if let Some(k) = broker_queue::result_place(v, other) {
                lemma_result_place_is(w, other, if k < i { k } else { k - 1 });
            } else if let Some(k) = broker_queue::result_place(w, other) {
                assert(v[if k < i { k } else { k + 1 }].0 == other);
            }
        }
    }
}

// Peers that the broker tells of

proof fn lemma_ensuring_keeps(n: NetworkView, p: PeerView, listed: bool, uid: u16, entity: Seq<char>)
    ensures
        ({
            let m = n.ensuring(p, listed, uid);
            &&& n.knows(entity) ==> m.knows(entity)
            &&& n.takes_in(p.entity, listed) ==> m.knows(p.entity)
            &&& m.remotes.len() <= n.remotes.len() + 1
            &&& m.connect_completed == n.connect_completed && m.local_endpoint == n.local_endpoint
            &&& m.endpoint_delivered == n.endpoint_delivered && m.local_user == n.local_user
        }),
{
    assoc::lemma_place(n.remotes, p.entity);
    if n.takes_in(p.entity, listed) {
        let e = party::fresh_endpoint(p, uid);
        assert(n.ensuring(p, listed, uid).remotes == assoc::with(n.remotes, p.entity, e));
        assoc::set_is_found(n.remotes, p.entity, e, entity);
        assoc::set_is_found(n.remotes, p.entity, e, p.entity);
    } else if let Some(i) = assoc::place(n.remotes, p.entity) {
        crate::party_laws::lemma_with_remote(
            n,
            i,
            party::EndpointView { ip: p.ip, udp_port: p.udp_port, ..n.remotes[i].1 },
            entity,
        );
    }
}

/// What holds of a network that is told of some peers.
proof fn lemma_ensuring_all(h: HandleView, i: int, ps: Seq<PeerView>, listed: Seq<Seq<char>>, entity: Seq<char>)
    requires
        0 <= i < h.networks.len(),
    ensures
        ({
            let k = h.ensuring_all(i, ps, listed);
            let n = h.networks[i];
            let m = k.networks[i];
            &&& k.networks.len() == h.networks.len()
            &&& n.knows(entity) ==> m.knows(entity)
            &&& m.remotes.len() <= n.remotes.len() + ps.len()
            &&& m.connect_completed == n.connect_completed && m.local_endpoint == n.local_endpoint
            &&& m.endpoint_delivered == n.endpoint_delivered && m.local_user == n.local_user
        }),
    decreases ps.len(),
{
    if ps.len() > 0 {
        lemma_ensuring_all(h, i, ps.drop_last(), listed, entity);
        let k = h.ensuring_all(i, ps.drop_last(), listed);
        let p = ps.last();
        lemma_ensuring_keeps(
            k.networks[i],
            p,
            listed.contains(p.entity),
            k.counters.uid,
            entity,
        );
    }
}

/// Every peer of a list that the title has a row for is known to the network once the network was
/// told of the list, as far as there is room.
pub proof fn told_peers_are_known(
    h: HandleView,
    i: int,
    ps: Seq<PeerView>,
    listed: Seq<Seq<char>>,
    j: int,
)
    requires
        0 <= i < h.networks.len(),
        0 <= j < ps.len(),
        listed.contains(ps[j].entity),
        h.networks[i].admits(ps[j].entity),
        h.networks[i].remotes.len() + ps.len() <= 8,
    ensures
        h.ensuring_all(i, ps, listed).networks[i].knows(ps[j].entity),
    decreases ps.len(),
{
    let t = ps.drop_last();
    let k = h.ensuring_all(i, t, listed);
    let e = ps[j].entity;
    lemma_ensuring_all(h, i, t, listed, e);
    let p = ps.last();
    lemma_ensuring_keeps(k.networks[i], p, listed.contains(p.entity), k.counters.uid, e);
    if j < t.len() {
        assert(t[j] == ps[j]);
        told_peers_are_known(h, i, t, listed, j);
    } else {
        assert(k.networks[i].admits(e));
        assert(k.networks[i].knows(e) || k.networks[i].takes_in(e, true));
    }
}

// Joinings that wait

proof fn lemma_completing_appends(s: crate::lobby_stage::Stage, joiner: EntityView)
    ensures
        ({
            let r = crate::lobby_stage::completing_join(s, joiner);
            &&& s.out.is_prefix_of(r.out)
            &&& r.out.len() > s.out.len()
            &&& r.out.last() == (LobbyChangeView::JoinCompleted {
                result: 0,
                joiner,
                lobby: s.lobby.number,
            })
        }),
{
    crate::lobby_stage::join_is_told_in_order(s, joiner);
    let r = crate::lobby_stage::completing_join(s, joiner);
    assert(r.out.take(s.out.len() as int) =~= s.out);
}

proof fn lemma_settling_appends(c: ClientView, n: nat)
    ensures
        c.pending.is_prefix_of(c.settling(n).pending),
    decreases n,
{
    if n > 0 && n <= c.joins.len() {
        let j = c.joins[n - 1];
        if 0 <= j.lobby < c.lobbies.len() && lobby_requests::is_ready(c.lobbies[j.lobby]) {
            let t = crate::lobby_stage::completing_join(c.at(j.lobby), j.joiner);
            let s = c.staged(j.lobby, t);
            let d = ClientView { joins: c.joins.remove(n - 1), ..s };
            lemma_completing_appends(c.at(j.lobby), j.joiner);
            lemma_settling_appends(d, (n - 1) as nat);
            assert(d.pending == t.out);
        } else {
            lemma_settling_appends(c, (n - 1) as nat);
        }
    }
}

/// A joining that waited for its lobby to be ready ends once the lobby is: the title is told that
/// it has joined.
pub proof fn ready_joining_ends(c: ClientView)
    requires
        c.joins.len() > 0,
        0 <= c.joins.last().lobby < c.lobbies.len(),
        lobby_requests::is_ready(c.lobbies[c.joins.last().lobby]),
    ensures
        ({
            let j = c.joins.last();
            let d = c.settling(c.joins.len());
            exists|k: int|
                c.pending.len() <= k < d.pending.len() && #[trigger] d.pending[k]
                    == (LobbyChangeView::JoinCompleted {
                    result: 0,
                    joiner: j.joiner,
                    lobby: c.lobbies[j.lobby].number,
                })
        }),
{
    let n = c.joins.len();
    let j = c.joins[n - 1];
    let t = crate::lobby_stage::completing_join(c.at(j.lobby), j.joiner);
    let d = ClientView { joins: c.joins.remove(n - 1), ..c.staged(j.lobby, t) };
    lemma_completing_appends(c.at(j.lobby), j.joiner);
    lemma_settling_appends(d, (n - 1) as nat);
    let e = c.settling(n);
    let k = t.out.len() - 1;
    assert(e == d.settling((n - 1) as nat));
    assert(e.pending[k] == t.out[k]);
}

}
