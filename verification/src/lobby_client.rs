//! The lobby client: what the title asks for becomes requests to the broker, and what the broker
//! replies becomes changes that the title is told. Nothing here waits for the broker.
use crate::assoc;
use crate::lobby_delta;
use crate::lobby_delta::{Delta, DeltaView};
use crate::lobby_json;
use crate::lobby_model;
use crate::lobby_model::{Entity, EntityView, Lobby, LobbyView};
use crate::lobby_requests;
use crate::lobby_requests::{Probe, ProbeView, Search};
use crate::lobby_rows;
use crate::lobby_stage;
use crate::lobby_stage::{LobbyChange, LobbyChangeView, Stage};
use crate::lobby_update;
use crate::lobby_update::{DataUpdate, MemberData};
use crate::scan;
use crate::text;
use vstd::prelude::*;

verus! {

/// How long the broker is left alone between two rounds of looks at the lobbies, in milliseconds.
pub const POLL_MS: u64 = 250;

/// What a request to the broker is for.
pub enum Task {
    Create { lobby: usize, owner: Entity, max: u32, context: u64 },
    Join { lobby: usize, joiner: Entity, connection: String, values: Vec<(String, String)> },
    JoinRead {
        lobby: usize,
        joiner: Entity,
        id: String,
        connection: String,
        values: Vec<(String, String)>,
    },
    Find { searcher: Entity, context: u64 },
    /// A look at the first of the lobbies that are still to be looked at.
    Look { searcher: Entity, context: u64, rest: Vec<String>, kept: Vec<String> },
    /// A look at who takes part in the network of that lobby.
    AskPeers {
        searcher: Entity,
        context: u64,
        owner_id: String,
        rest: Vec<String>,
        kept: Vec<String>,
    },
    Update { lobby: usize, user: Option<Entity>, context: u64, delta: Delta },
    Leave,
    Refresh { lobby: usize },
}

#[verifier::ext_equal]
pub enum TaskView {
    Create { lobby: int, owner: EntityView, max: u32, context: u64 },
    Join {
        lobby: int,
        joiner: EntityView,
        connection: Seq<char>,
        values: Seq<(Seq<char>, Seq<char>)>,
    },
    JoinRead {
        lobby: int,
        joiner: EntityView,
        id: Seq<char>,
        connection: Seq<char>,
        values: Seq<(Seq<char>, Seq<char>)>,
    },
    Find { searcher: EntityView, context: u64 },
    Look { searcher: EntityView, context: u64, rest: Seq<Seq<char>>, kept: Seq<Seq<char>> },
    AskPeers {
        searcher: EntityView,
        context: u64,
        owner_id: Seq<char>,
        rest: Seq<Seq<char>>,
        kept: Seq<Seq<char>>,
    },
    Update { lobby: int, user: Option<EntityView>, context: u64, delta: DeltaView },
    Leave,
    Refresh { lobby: int },
}

impl View for Task {
    type V = TaskView;

    open spec fn view(&self) -> TaskView {
        match *self {
            Task::Create { lobby, owner, max, context } => TaskView::Create {
                lobby: lobby as int,
                owner: owner@,
                max,
                context,
            },
            Task::Join { lobby, joiner, connection, values } => TaskView::Join {
                lobby: lobby as int,
                joiner: joiner@,
                connection: connection@,
                values: assoc::pairs(values@),
            },
            Task::JoinRead { lobby, joiner, id, connection, values } => TaskView::JoinRead {
                lobby: lobby as int,
                joiner: joiner@,
                id: id@,
                connection: connection@,
                values: assoc::pairs(values@),
            },
            Task::Find { searcher, context } => TaskView::Find { searcher: searcher@, context },
            Task::Look { searcher, context, rest, kept } => TaskView::Look {
                searcher: searcher@,
                context,
                rest: text::views(rest@),
                kept: text::views(kept@),
            },
            Task::AskPeers { searcher, context, owner_id, rest, kept } => TaskView::AskPeers {
                searcher: searcher@,
                context,
                owner_id: owner_id@,
                rest: text::views(rest@),
                kept: text::views(kept@),
            },
            Task::Update { lobby, user, context, delta } => TaskView::Update {
                lobby: lobby as int,
                user: lobby_model::opt_entity(user),
                context,
                delta: delta@,
            },
            Task::Leave => TaskView::Leave,
            Task::Refresh { lobby } => TaskView::Refresh { lobby: lobby as int },
        }
    }
}

/// A request to the broker. It belongs to one life of the client.
pub struct Job {
    pub generation: u64,
    /// The request carries a body.
    pub post: bool,
    pub path: String,
    pub body: Vec<u8>,
    pub task: Task,
}

#[verifier::ext_equal]
pub struct JobView {
    pub generation: u64,
    pub post: bool,
    pub path: Seq<char>,
    pub body: Seq<u8>,
    pub task: TaskView,
}

impl View for Job {
    type V = JobView;

    open spec fn view(&self) -> JobView {
        JobView {
            generation: self.generation,
            post: self.post,
            path: self.path@,
            body: self.body@,
            task: self.task@,
        }
    }
}

pub open spec fn job_views(v: Seq<Job>) -> Seq<JobView> {
    v.map_values(|j: Job| j@)
}

/// A joining that waits for the host.
pub struct PendingJoin {
    pub lobby: usize,
    pub joiner: Entity,
}

#[verifier::ext_equal]
pub struct JoinView {
    pub lobby: int,
    pub joiner: EntityView,
}

impl View for PendingJoin {
    type V = JoinView;

    open spec fn view(&self) -> JoinView {
        JoinView { lobby: self.lobby as int, joiner: self.joiner@ }
    }
}

pub open spec fn join_views(v: Seq<PendingJoin>) -> Seq<JoinView> {
    v.map_values(|j: PendingJoin| j@)
}

pub open spec fn lobby_views(v: Seq<Lobby>) -> Seq<LobbyView> {
    v.map_values(|l: Lobby| l@)
}

/// The header line of a token, where there is one.
pub open spec fn auth_line(token: Seq<char>) -> Seq<char> {
    if token.len() == 0 { Seq::empty() } else { "X-EntityToken: "@ + token + "\r\n"@ }
}

/// The client. A lobby keeps its number for good.
pub struct Client {
    /// The title has started the client and not ended it.
    pub live: bool,
    pub generation: u64,
    pub local: String,
    pub token: String,
    pub lobbies: Vec<Lobby>,
    /// What the title is to be told.
    pub pending: Vec<LobbyChange>,
    /// What the title was told and has not given back.
    pub in_flight: Vec<LobbyChange>,
    pub outstanding: bool,
    /// When the lobbies were last looked at, in milliseconds.
    pub last_poll: Option<u64>,
    pub joins: Vec<PendingJoin>,
    /// What the broker is to be asked.
    pub jobs: Vec<Job>,
}

#[verifier::ext_equal]
pub struct ClientView {
    pub live: bool,
    pub generation: u64,
    pub local: Seq<char>,
    pub token: Seq<char>,
    pub lobbies: Seq<LobbyView>,
    pub pending: Seq<LobbyChangeView>,
    pub in_flight: Seq<LobbyChangeView>,
    pub outstanding: bool,
    pub last_poll: Option<u64>,
    pub joins: Seq<JoinView>,
    pub jobs: Seq<JobView>,
}

impl View for Client {
    type V = ClientView;

    open spec fn view(&self) -> ClientView {
        ClientView {
            live: self.live,
            generation: self.generation,
            local: self.local@,
            token: self.token@,
            lobbies: lobby_views(self.lobbies@),
            pending: lobby_stage::lobby_changes(self.pending@),
            in_flight: lobby_stage::lobby_changes(self.in_flight@),
            outstanding: self.outstanding,
            last_poll: self.last_poll,
            joins: join_views(self.joins@),
            jobs: job_views(self.jobs@),
        }
    }
}

/// A client that the title has not started.
pub open spec fn idle_client() -> ClientView {
    ClientView {
        live: false,
        generation: 0,
        local: Seq::empty(),
        token: Seq::empty(),
        lobbies: Seq::empty(),
        pending: Seq::empty(),
        in_flight: Seq::empty(),
        outstanding: false,
        last_poll: None,
        joins: Seq::empty(),
        jobs: Seq::empty(),
    }
}

/// A text without line ends.
pub open spec fn one_line(s: Seq<char>) -> Seq<char> {
    s.filter(|c: char| c != '\r' && c != '\n')
}

/// Takes the line ends out of a text.
fn strip_line_ends(s: &str) -> (r: String)
    ensures
        r@ == one_line(s@),
{
    let v = text::chars_of(s);
    let ghost keep = |c: char| c != '\r' && c != '\n';
    let mut r = String::new();
    let mut i: usize = 0;
    assert(v@.take(0) =~= Seq::empty());
    assert(r@ =~= v@.take(0).filter(keep)) by {
        reveal(Seq::filter);
    }
    while i < v.len()
        invariant
            i <= v@.len(),
            keep == (|c: char| c != '\r' && c != '\n'),
            r@ == v@.take(i as int).filter(keep),
        decreases v@.len() - i,
    {
        assert(v@.take(i + 1).drop_last() =~= v@.take(i as int));
        reveal(Seq::filter);
        if v[i] != '\r' && v[i] != '\n' {
            r.push(v[i]);
        }
        i += 1;
    }
    assert(v@.take(i as int) =~= v@);
    r
}

/// Lobbies that the broker is not asked for any more.
pub open spec fn unpolled(v: Seq<LobbyView>) -> Seq<LobbyView> {
    v.map_values(|l: LobbyView| LobbyView { polled: false, ..l })
}

impl ClientView {
    /// The title starts the client. Lobbies of an earlier life stay where they are, unattended.
    pub open spec fn initialized(self) -> ClientView {
        ClientView {
            live: true,
            generation: if self.generation == u64::MAX {
                0
            } else {
                (self.generation + 1) as u64
            },
            lobbies: unpolled(self.lobbies),
            pending: Seq::empty(),
            in_flight: Seq::empty(),
            outstanding: false,
            last_poll: None,
            joins: Seq::empty(),
            jobs: Seq::empty(),
            ..self
        }
    }

    /// The broker is to be asked.
    pub open spec fn asking(
        self,
        post: bool,
        path: Seq<char>,
        body: Seq<u8>,
        task: TaskView,
    ) -> ClientView {
        ClientView {
            jobs: self.jobs.push(JobView { generation: self.generation, post, path, body, task }),
            ..self
        }
    }

    /// The title is to be told.
    pub open spec fn telling(self, c: LobbyChangeView) -> ClientView {
        ClientView { pending: self.pending.push(c), ..self }
    }

    /// A lobby and what the title is to be told.
    pub open spec fn at(self, i: int) -> Stage {
        Stage { lobby: self.lobbies[i], out: self.pending }
    }

    /// The client with a lobby and what the title is to be told.
    pub open spec fn staged(self, i: int, s: Stage) -> ClientView {
        ClientView { lobbies: self.lobbies.update(i, s.lobby), pending: s.out, ..self }
    }

    /// The number that the next lobby gets.
    pub open spec fn next_number(self) -> u64 {
        self.lobbies.len() as u64
    }
}

/// How many can take part in a lobby that the title creates.
pub open spec fn asked_max(c: Option<CreateConfig>) -> u32 {
    match c {
        Some(c) => if c.max < 1 {
            1
        } else if c.max > 32 {
            32
        } else {
            c.max
        },
        None => 8,
    }
}

pub open spec fn asked_policy(c: Option<CreateConfig>) -> u32 {
    match c {
        Some(c) => if c.owner_migration_policy > 3 { 3 } else { c.owner_migration_policy },
        None => 0,
    }
}

pub open spec fn asked_access(c: Option<CreateConfig>) -> u32 {
    match c {
        Some(c) => if c.access_policy > 2 { 2 } else { c.access_policy },
        None => 0,
    }
}

pub open spec fn asked_search(c: Option<CreateConfig>) -> Seq<(Seq<char>, Seq<char>)> {
    match c {
        Some(c) => lobby_update::listed(assoc::pairs(c.search@)),
        None => Seq::empty(),
    }
}

pub open spec fn asked_props(c: Option<CreateConfig>) -> Seq<(Seq<char>, Seq<char>)> {
    match c {
        Some(c) => lobby_update::listed(assoc::pairs(c.props@)),
        None => Seq::empty(),
    }
}

/// What the title asks of a lobby that it creates.
pub struct CreateConfig {
    pub max: u32,
    pub owner_migration_policy: u32,
    pub access_policy: u32,
    pub search: Vec<(String, String)>,
    pub props: Vec<(String, String)>,
}

/// A lobby whose creation is under way: the title reads what it asked for, and nothing of the
/// lobby's identity.
pub open spec fn started_lobby(
    number: u64,
    owner: EntityView,
    config: Option<CreateConfig>,
    values: Seq<(Seq<char>, Seq<char>)>,
) -> LobbyView {
    LobbyView {
        owner,
        max_players: asked_max(config),
        access_policy: asked_access(config),
        props: lobby_model::setting(Seq::empty(), asked_props(config)),
        search: lobby_model::setting(Seq::empty(), asked_search(config)),
        members: seq![owner],
        member_props: seq![(owner.id, lobby_model::member_values(owner.id, values))],
        ..lobby_model::blank_lobby(number)
    }
}

impl ClientView {
    /// The title creates a lobby.
    pub open spec fn creating(
        self,
        creator: Option<EntityView>,
        config: Option<CreateConfig>,
        values: Seq<(Seq<char>, Seq<char>)>,
        context: u64,
    ) -> ClientView {
        let owner = lobby_model::named(creator);
        let mine = lobby_update::listed(values);
        ClientView {
            lobbies: self.lobbies.push(started_lobby(self.next_number(), owner, config, mine)),
            ..self
        }.asking(
            true,
            "/Lobby/CreateAndJoinLobby"@,
            lobby_requests::create_text(
                asked_max(config),
                asked_policy(config),
                asked_props(config),
                asked_search(config),
                owner.id,
                mine,
            ),
            TaskView::Create {
                lobby: self.lobbies.len() as int,
                owner,
                max: asked_max(config),
                context,
            },
        )
    }

    /// The title joins a lobby.
    pub open spec fn joining(
        self,
        joiner: Option<EntityView>,
        connection: Seq<char>,
        values: Seq<(Seq<char>, Seq<char>)>,
    ) -> ClientView {
        let e = lobby_model::named(joiner);
        let mine = lobby_update::listed(values);
        ClientView {
            lobbies: self.lobbies.push(lobby_model::blank_lobby(self.next_number())),
            ..self
        }.asking(
            true,
            "/Lobby/JoinLobby"@,
            lobby_requests::join_text(connection, e.id, mine),
            TaskView::Join {
                lobby: self.lobbies.len() as int,
                joiner: e,
                connection,
                values: mine,
            },
        )
    }
}

impl Client {
    /// A client that the title has not started.
    pub fn new() -> (r: Client)
        ensures
            r@ == idle_client(),
    {
        let r = Client {
            live: false,
            generation: 0,
            local: String::new(),
            token: String::new(),
            lobbies: Vec::new(),
            pending: Vec::new(),
            in_flight: Vec::new(),
            outstanding: false,
            last_poll: None,
            joins: Vec::new(),
            jobs: Vec::new(),
        };
        assert(r@ =~= idle_client());
        r
    }

    /// Starts the client, unless it is started.
    pub fn initialize(&mut self) -> (r: i32)
        ensures
            r == (if old(self)@.live { lobby_requests::E_PF_INSTANCE_ALREADY_EXISTS } else { 0 }),
            final(self)@ == (if old(self)@.live { old(self)@ } else { old(self)@.initialized() }),
    {
        if self.live {
            return lobby_requests::E_PF_INSTANCE_ALREADY_EXISTS;
        }
        let ghost before = self@;
        let mut i: usize = 0;
        while i < self.lobbies.len()
            invariant
                i <= self.lobbies@.len(),
                self.lobbies@.len() == before.lobbies.len(),
                self@ == (ClientView { lobbies: self@.lobbies, ..before }),
                forall|j: int|
                    0 <= j < i ==> #[trigger] self@.lobbies[j] == (LobbyView {
                        polled: false,
                        ..before.lobbies[j]
                    }),
                forall|j: int|
                    i <= j < before.lobbies.len() ==> #[trigger] self@.lobbies[j]
                        == before.lobbies[j],
            decreases self.lobbies@.len() - i,
        {
            let ghost here = self@;
            self.lobbies[i].polled = false;
            assert(self@.lobbies =~= here.lobbies.update(
                i as int,
                LobbyView { polled: false, ..here.lobbies[i as int] },
            ));
            i += 1;
        }
        assert(self@.lobbies =~= unpolled(before.lobbies));
        self.live = true;
        self.generation = if self.generation == u64::MAX {
            0
        } else {
            self.generation + 1
        };
        self.pending = Vec::new();
        self.in_flight = Vec::new();
        self.outstanding = false;
        self.last_poll = None;
        self.joins = Vec::new();
        self.jobs = Vec::new();
        assert(self@ =~= before.initialized());
        0
    }

    /// Ends the client, if it is started.
    pub fn uninitialize(&mut self) -> (r: i32)
        ensures
            r == (if old(self)@.live { 0 } else { lobby_requests::E_PF_NOT_INITIALIZED }),
            final(self)@ == (ClientView { live: false, ..old(self)@ }),
    {
        if !self.live {
            return lobby_requests::E_PF_NOT_INITIALIZED;
        }
        self.live = false;
        0
    }

    /// Takes the local participant and its token over. Both are needed.
    pub fn set_entity_token(&mut self, entity: &Option<Entity>, token: &Option<String>) -> (r: i32)
        ensures
            r == (if !old(self)@.live {
                lobby_requests::E_PF_NOT_INITIALIZED
            } else if *entity is None || entity->0@.id.len() == 0 || entity->0@.kind.len() == 0 {
                lobby_requests::E_PF_ENTITY_KEY_MALFORMED
            } else if *token is None || token->0@.len() == 0 {
                lobby_requests::E_PF_ENTITY_TOKEN_MALFORMED
            } else {
                0
            }),
            final(self)@ == (if r == 0 {
                ClientView {
                    local: entity->0@.id,
                    token: one_line(token->0@),
                    ..old(self)@
                }
            } else {
                old(self)@
            }),
    {
        if !self.live {
            return lobby_requests::E_PF_NOT_INITIALIZED;
        }
        let e = match entity {
            Some(e) => e,
            None => {
                return lobby_requests::E_PF_ENTITY_KEY_MALFORMED;
            },
        };
        if text::is_empty(e.id.as_str()) || text::is_empty(e.kind.as_str()) {
            return lobby_requests::E_PF_ENTITY_KEY_MALFORMED;
        }
        let t = match token {
            Some(t) => t,
            None => {
                return lobby_requests::E_PF_ENTITY_TOKEN_MALFORMED;
            },
        };
        if text::is_empty(t.as_str()) {
            return lobby_requests::E_PF_ENTITY_TOKEN_MALFORMED;
        }
        self.local = e.id.clone();
        self.token = strip_line_ends(t.as_str());
        0
    }

    /// The header line that names the local participant to the broker, where there is one.
    pub fn auth_header(&self) -> (r: String)
        ensures
            r@ == auth_line(self@.token),
    {
        let mut r = String::new();
        if !text::is_empty(self.token.as_str()) {
            r.append("X-EntityToken: ");
            r.append(self.token.as_str());
            r.append("\r\n");
        }
        assert(r@ =~= auth_line(self@.token));
        r
    }

    fn ask(&mut self, post: bool, path: &str, body: Vec<u8>, task: Task)
        ensures
            final(self)@ == old(self)@.asking(post, path@, body@, task@),
    {
        let ghost before = self@;
        let j = Job { generation: self.generation, post, path: path.to_owned(), body, task };
        self.jobs.push(j);
        assert(self@.jobs =~= before.jobs.push(j@));
    }

    fn tell(&mut self, c: LobbyChange)
        ensures
            final(self)@ == old(self)@.telling(c@),
    {
        lobby_stage::tell(&mut self.pending, c);
    }

    /// Creates a lobby. The result is its number.
    pub fn create_and_join_lobby(
        &mut self,
        creator: &Option<Entity>,
        config: &Option<CreateConfig>,
        values: &Vec<(String, String)>,
        context: u64,
    ) -> (r: Result<u64, i32>)
        ensures
            r == (if old(self)@.live {
                Ok::<u64, i32>(old(self)@.next_number())
            } else {
                Err::<u64, i32>(lobby_requests::E_PF_NOT_INITIALIZED)
            }),
            final(self)@ == (if old(self)@.live {
                old(self)@.creating(
                    lobby_model::opt_entity(*creator),
                    *config,
                    assoc::pairs(values@),
                    context,
                )
            } else {
                old(self)@
            }),
    {
        if !self.live {
            return Err(lobby_requests::E_PF_NOT_INITIALIZED);
        }
        let ghost before = self@;
        let owner = lobby_model::intern_entity(creator);
        let mine = lobby_update::kv_list(values);
        let (max, policy, access, search, props) = match config {
            Some(c) => (
                if c.max < 1 {
                    1u32
                } else if c.max > 32 {
                    32u32
                } else {
                    c.max
                },
                if c.owner_migration_policy > 3 {
                    3u32
                } else {
                    c.owner_migration_policy
                },
                if c.access_policy > 2 {
                    2u32
                } else {
                    c.access_policy
                },
                lobby_update::kv_list(&c.search),
                lobby_update::kv_list(&c.props),
            ),
            None => {
                let a: Vec<(String, String)> = Vec::new();
                let b: Vec<(String, String)> = Vec::new();
                assert(assoc::pairs(a@) =~= Seq::empty());
                assert(assoc::pairs(b@) =~= Seq::empty());
                (8u32, 0u32, 0u32, a, b)
            },
        };
        let at: usize = self.lobbies.len();
        assert(before.lobbies.len() == at);
        let number: u64 = at as u64;
        let mut l = Lobby::blank(number);
        l.owner = owner.copy();
        l.max_players = max;
        l.access_policy = access;
        lobby_model::apply_props(&mut l.props, &props);
        lobby_model::apply_props(&mut l.search, &search);
        l.members.push(owner.copy());
        assert(l@.members =~= seq![owner@]);
        let bag = lobby_model::member_bag(owner.id.as_str(), &mine);
        let ghost values_now = bag@;
        l.member_props.push((owner.id.clone(), bag));
        assert(l@.member_props =~= seq![(owner@.id, values_now)]);
        assert(l@ =~= started_lobby(number, owner@, *config, assoc::pairs(mine@)));
        self.lobbies.push(l);
        assert(self@.lobbies =~= before.lobbies.push(l@));
        let body = lobby_requests::create_body(
            max,
            policy,
            &props,
            &search,
            owner.id.as_str(),
            &mine,
        );
        self.ask(
            true,
            "/Lobby/CreateAndJoinLobby",
            body,
            Task::Create { lobby: at, owner, max, context },
        );
        Ok(number)
    }

    /// Joins a lobby. The result is its number.
    pub fn join_lobby(
        &mut self,
        joiner: &Option<Entity>,
        connection: &str,
        values: &Vec<(String, String)>,
    ) -> (r: Result<u64, i32>)
        ensures
            r == (if old(self)@.live {
                Ok::<u64, i32>(old(self)@.next_number())
            } else {
                Err::<u64, i32>(lobby_requests::E_PF_NOT_INITIALIZED)
            }),
            final(self)@ == (if old(self)@.live {
                old(self)@.joining(
                    lobby_model::opt_entity(*joiner),
                    connection@,
                    assoc::pairs(values@),
                )
            } else {
                old(self)@
            }),
    {
        if !self.live {
            return Err(lobby_requests::E_PF_NOT_INITIALIZED);
        }
        let ghost before = self@;
        let e = lobby_model::intern_entity(joiner);
        let mine = lobby_update::kv_list(values);
        let at: usize = self.lobbies.len();
        assert(before.lobbies.len() == at);
        let l = Lobby::blank(at as u64);
        self.lobbies.push(l);
        assert(self@.lobbies =~= before.lobbies.push(l@));
        let body = lobby_requests::join_body(connection, e.id.as_str(), &mine);
        self.ask(
            true,
            "/Lobby/JoinLobby",
            body,
            Task::Join {
                lobby: at,
                joiner: e,
                connection: connection.to_owned(),
                values: mine,
            },
        );
        Ok(at as u64)
    }
}

impl ClientView {
    /// The title changes a lobby: the title sees it at once, and the broker is asked.
    pub open spec fn posting(
        self,
        lobby: int,
        user: Option<EntityView>,
        data: Option<DataUpdate>,
        values: Option<MemberData>,
        context: u64,
    ) -> ClientView {
        let before = self.lobbies[lobby];
        let after = lobby_update::with_update(before, data, values, user, self.local);
        ClientView { lobbies: self.lobbies.update(lobby, after), ..self }.asking(
            true,
            "/Lobby/UpdateLobby"@,
            lobby_requests::update_text(
                after,
                lobby_update::asked_update(data, values, user, self.local),
                self.local,
            ),
            TaskView::Update {
                lobby,
                user,
                context,
                delta: lobby_delta::delta_of(before, after),
            },
        )
    }

    /// The title searches for lobbies.
    pub open spec fn finding(
        self,
        searcher: Option<EntityView>,
        search: Search,
        context: u64,
    ) -> ClientView {
        self.asking(
            true,
            "/Lobby/FindLobbies"@,
            lobby_requests::find_text(lobby_update::id_or(searcher, self.local), search),
            TaskView::Find { searcher: lobby_model::named(searcher), context },
        )
    }

    /// The title leaves a lobby, which the broker is not asked for any more.
    pub open spec fn leaving(self, lobby: int) -> ClientView {
        let l = self.lobbies[lobby];
        ClientView {
            lobbies: self.lobbies.update(lobby, LobbyView { left: true, polled: false, ..l }),
            ..self
        }.asking(
            true,
            "/Lobby/LeaveLobby"@,
            lobby_requests::leave_text(
                l.id,
                if self.local.len() > 0 { self.local } else { l.owner.id },
            ),
            TaskView::Leave,
        )
    }
}

/// The code with which an update is refused at once, or 0.
pub open spec fn post_code(
    c: ClientView,
    lobby: u64,
    data: Option<DataUpdate>,
    values: Option<MemberData>,
) -> i32 {
    if lobby >= c.lobbies.len() {
        lobby_requests::E_FAIL
    } else if data is None && values is None {
        lobby_requests::E_PF_LOBBY_EMPTY_UPDATE
    } else if c.lobbies[lobby as int].left {
        lobby_requests::E_PF_LOBBY_UPDATE_AFTER_DISCONNECT
    } else {
        0
    }
}

impl Client {
    /// Searches for lobbies.
    pub fn find_lobbies(&mut self, searcher: &Option<Entity>, search: &Search, context: u64) -> (r:
        i32)
        ensures
            r == (if old(self)@.live { 0 } else { lobby_requests::E_PF_NOT_INITIALIZED }),
            final(self)@ == (if old(self)@.live {
                old(self)@.finding(lobby_model::opt_entity(*searcher), *search, context)
            } else {
                old(self)@
            }),
    {
        if !self.live {
            return lobby_requests::E_PF_NOT_INITIALIZED;
        }
        let entity = lobby_update::entity_id_of(searcher, self.local.as_str());
        let body = lobby_requests::find_body(entity.as_str(), search);
        self.ask(
            true,
            "/Lobby/FindLobbies",
            body,
            Task::Find { searcher: lobby_model::intern_entity(searcher), context },
        );
        0
    }

    /// Changes a lobby.
    pub fn post_update(
        &mut self,
        lobby: u64,
        user: Option<Entity>,
        data: &Option<DataUpdate>,
        values: &Option<MemberData>,
        context: u64,
    ) -> (r: i32)
        ensures
            r == post_code(old(self)@, lobby, *data, *values),
            final(self)@ == (if r == 0 {
                old(self)@.posting(
                    lobby as int,
                    lobby_model::opt_entity(user),
                    *data,
                    *values,
                    context,
                )
            } else {
                old(self)@
            }),
    {
        let ghost before = self@;
        assert(before.lobbies.len() == self.lobbies@.len());
        if lobby >= self.lobbies.len() as u64 {
            return lobby_requests::E_FAIL;
        }
        if data.is_none() && values.is_none() {
            return lobby_requests::E_PF_LOBBY_EMPTY_UPDATE;
        }
        let i: usize = lobby as usize;
        assert(before.lobbies[i as int] == self.lobbies@[i as int]@);
        if self.lobbies[i].left {
            return lobby_requests::E_PF_LOBBY_UPDATE_AFTER_DISCONNECT;
        }
        let was = self.lobbies[i].copy();
        let mut now = was.copy();
        let u = lobby_update::apply_update(&mut now, data, values, &user, self.local.as_str());
        let delta = lobby_delta::diff_lobby(&was, &now);
        let body = lobby_requests::update_body(&now, &u, self.local.as_str());
        let ghost after = now@;
        self.lobbies[i] = now;
        assert(self@.lobbies =~= before.lobbies.update(i as int, after));
        self.ask(
            true,
            "/Lobby/UpdateLobby",
            body,
            Task::Update { lobby: i, user, context, delta },
        );
        0
    }

    /// Leaves a lobby. Where there is none, the title is told at once that it has left.
    pub fn leave_lobby(&mut self, lobby: u64)
        ensures
            final(self)@ == (if lobby < old(self)@.lobbies.len() {
                old(self)@.leaving(lobby as int)
            } else {
                old(self)@.telling(LobbyChangeView::LeaveCompleted)
            }),
    {
        let ghost before = self@;
        assert(before.lobbies.len() == self.lobbies@.len());
        if lobby >= self.lobbies.len() as u64 {
            self.tell(LobbyChange::LeaveCompleted);
            return;
        }
        let i: usize = lobby as usize;
        assert(before.lobbies[i as int] == self.lobbies@[i as int]@);
        let entity = if text::is_empty(self.local.as_str()) {
            self.lobbies[i].owner.id.clone()
        } else {
            self.local.clone()
        };
        let body = lobby_requests::leave_body(self.lobbies[i].id.as_str(), entity.as_str());
        self.lobbies[i].left = true;
        self.lobbies[i].polled = false;
        assert(self@.lobbies =~= before.lobbies.update(
            i as int,
            LobbyView { left: true, polled: false, ..before.lobbies[i as int] },
        ));
        self.ask(true, "/Lobby/LeaveLobby", body, Task::Leave);
    }

    /// Nobody is removed by force; only a nameless participant is refused.
    pub fn force_remove_member(&self, target: &Option<Entity>) -> (r: i32)
        ensures
            r == (if *target is None || target->0@.id.len() == 0 {
                lobby_requests::E_PF_ENTITY_KEY_MALFORMED
            } else {
                0
            }),
    {
        match target {
            Some(e) => if text::is_empty(e.id.as_str()) {
                lobby_requests::E_PF_ENTITY_KEY_MALFORMED
            } else {
                0
            },
            None => lobby_requests::E_PF_ENTITY_KEY_MALFORMED,
        }
    }
}

impl ClientView {
    /// The broker is asked for the lobbies from the `n` first ones that need a look.
    pub open spec fn looking(self, n: nat) -> ClientView
        decreases n,
    {
        if n == 0 {
            self
        } else {
            let c = self.looking((n - 1) as nat);
            let l = self.lobbies[n - 1];
            if l.polled && !l.asked {
                ClientView {
                    lobbies: c.lobbies.update(n - 1, LobbyView { asked: true, ..l }),
                    ..c
                }.asking(
                    true,
                    "/Lobby/GetLobby"@,
                    lobby_requests::get_text(l.id),
                    TaskView::Refresh { lobby: n - 1 },
                )
            } else {
                c
            }
        }
    }

    /// It is time for another look at the lobbies.
    pub open spec fn poll_due(self, now: u64) -> bool {
        match self.last_poll {
            Some(t) => now > t + POLL_MS,
            None => true,
        }
    }

    /// The title asks what there is to be told: all of it, unless it still has what it was told
    /// before.
    pub open spec fn starting(self, now: u64) -> ClientView {
        let c = if self.poll_due(now) {
            ClientView { last_poll: Some(now), ..self.looking(self.lobbies.len()) }
        } else {
            self
        };
        if self.outstanding {
            c
        } else {
            ClientView {
                in_flight: c.pending,
                pending: Seq::empty(),
                outstanding: c.pending.len() > 0,
                ..c
            }
        }
    }

    /// The title gives back what it was told. Only all of it counts.
    pub open spec fn finishing(self, count: u32, same: bool) -> ClientView {
        if self.outstanding && count == self.in_flight.len() && same {
            ClientView { in_flight: Seq::empty(), outstanding: false, ..self }
        } else {
            self
        }
    }
}

proof fn lemma_looking(c: ClientView, n: nat)
    requires
        n <= c.lobbies.len(),
    ensures
        c.looking(n).lobbies.len() == c.lobbies.len(),
        forall|j: int| n <= j < c.lobbies.len() ==> #[trigger] c.looking(n).lobbies[j] == c.lobbies[j],
    decreases n,
{
    if n > 0 {
        lemma_looking(c, (n - 1) as nat);
    }
}

/// What giving back came to.
#[derive(PartialEq, Eq, Structural, Clone, Copy)]
pub enum Reclaim {
    /// There was nothing to give back.
    Idle,
    /// Something was given back that was never handed out.
    Stray,
    /// What was given back is not what was handed out.
    Refused,
    Done,
}

/// What giving back comes to.
pub open spec fn reclaim_of(c: ClientView, count: u32, same: bool) -> Reclaim {
    if !c.outstanding {
        if count == 0 {
            Reclaim::Idle
        } else {
            Reclaim::Stray
        }
    } else if count == c.in_flight.len() && same {
        Reclaim::Done
    } else {
        Reclaim::Refused
    }
}

impl Client {
    /// Asks the broker for the lobbies that need a look.
    fn look(&mut self)
        ensures
            final(self)@ == old(self)@.looking(old(self)@.lobbies.len()),
    {
        let ghost before = self@;
        assert(before.lobbies.len() == self.lobbies@.len());
        let mut i: usize = 0;
        while i < self.lobbies.len()
            invariant
                i <= self.lobbies@.len(),
                self.lobbies@.len() == before.lobbies.len(),
                self@ == before.looking(i as nat),
            decreases self.lobbies@.len() - i,
        {
            proof {
                lemma_looking(before, i as nat);
                lemma_looking(before, (i + 1) as nat);
            }
            let ghost here = self@;
            assert(here.lobbies[i as int] == self.lobbies@[i as int]@);
            if self.lobbies[i].polled && !self.lobbies[i].asked {
                let body = lobby_requests::get_body(self.lobbies[i].id.as_str());
                self.lobbies[i].asked = true;
                assert(self@.lobbies =~= here.lobbies.update(
                    i as int,
                    LobbyView { asked: true, ..here.lobbies[i as int] },
                ));
                self.ask(true, "/Lobby/GetLobby", body, Task::Refresh { lobby: i });
            }
            assert(self@.lobbies.len() == self.lobbies@.len());
            i += 1;
        }
    }

    /// Hands out what the title is to be told; it is in `in_flight` then.
    pub fn start_processing(&mut self, now: u64) -> (r: i32)
        ensures
            r == (if old(self)@.live { 0 } else { lobby_requests::E_PF_NOT_INITIALIZED }),
            final(self)@ == (if old(self)@.live { old(self)@.starting(now) } else { old(self)@ }),
    {
        if !self.live {
            return lobby_requests::E_PF_NOT_INITIALIZED;
        }
        let ghost before = self@;
        let due = match self.last_poll {
            Some(t) => now > t && now - t > POLL_MS,
            None => true,
        };
        if due {
            self.look();
            self.last_poll = Some(now);
            proof {
                lemma_looking_keeps(before, before.lobbies.len());
            }
        }
        let ghost c = self@;
        if !self.outstanding {
            let mut none: Vec<LobbyChange> = Vec::new();
            std::mem::swap(&mut none, &mut self.pending);
            self.in_flight = none;
            assert(self@.pending =~= Seq::empty());
            assert(self@.in_flight.len() == self.in_flight@.len());
            self.outstanding = self.in_flight.len() > 0;
        }
        assert(self@ =~= before.starting(now));
        0
    }

    /// Takes back what the title was told. `same` tells that it is the list that was handed out.
    pub fn finish_processing(&mut self, count: u32, same: bool) -> (r: (i32, Reclaim))
        ensures
            r.0 == (if old(self)@.live { 0 } else { lobby_requests::E_PF_NOT_INITIALIZED }),
            r.1 == (if old(self)@.live {
                reclaim_of(old(self)@, count, same)
            } else {
                Reclaim::Idle
            }),
            final(self)@ == (if old(self)@.live {
                old(self)@.finishing(count, same)
            } else {
                old(self)@
            }),
    {
        if !self.live {
            return (lobby_requests::E_PF_NOT_INITIALIZED, Reclaim::Idle);
        }
        assert(self@.in_flight.len() == self.in_flight@.len());
        if !self.outstanding {
            return (0, if count == 0 {
                Reclaim::Idle
            } else {
                Reclaim::Stray
            });
        }
        if count as usize != self.in_flight.len() || !same {
            return (0, Reclaim::Refused);
        }
        self.in_flight = Vec::new();
        self.outstanding = false;
        assert(self@.in_flight =~= Seq::empty());
        (0, Reclaim::Done)
    }

    /// The next request to the broker, in the order in which they were asked.
    pub fn take_job(&mut self) -> (r: Option<Job>)
        ensures
            match r {
                Some(j) => old(self)@.jobs.len() > 0 && j@ == old(self)@.jobs[0] && final(self)@
                    == (ClientView { jobs: old(self)@.jobs.drop_first(), ..old(self)@ }),
                None => old(self)@.jobs.len() == 0 && final(self)@ == old(self)@,
            },
    {
        let ghost before = self@;
        assert(before.jobs.len() == self.jobs@.len());
        if self.jobs.len() == 0 {
            return None;
        }
        let j = self.jobs.remove(0);
        assert(self@.jobs =~= before.jobs.drop_first());
        Some(j)
    }
}

proof fn lemma_looking_keeps(c: ClientView, n: nat)
    ensures
        c.looking(n) == (ClientView {
            lobbies: c.looking(n).lobbies,
            jobs: c.looking(n).jobs,
            ..c
        }),
    decreases n,
{
    if n > 0 {
        lemma_looking_keeps(c, (n - 1) as nat);
    }
}

impl ClientView {
    /// Lobbies that were found are looked at one after the other; those without an identifier are
    /// passed over. In the end the title is told of those that were kept.
    pub open spec fn sifting(
        self,
        searcher: EntityView,
        context: u64,
        rest: Seq<Seq<char>>,
        kept: Seq<Seq<char>>,
    ) -> ClientView
        decreases rest.len(),
    {
        if rest.len() == 0 {
            self.telling(
                LobbyChangeView::FindCompleted {
                    result: 0,
                    searcher,
                    context,
                    rows: lobby_rows::rows_of(kept),
                },
            )
        } else if lobby_rows::row_id(rest[0]).len() == 0 {
            self.sifting(searcher, context, rest.drop_first(), kept)
        } else {
            self.asking(
                true,
                "/Lobby/GetLobby"@,
                lobby_requests::probe_text(lobby_rows::row_id(rest[0])),
                TaskView::Look { searcher, context, rest, kept },
            )
        }
    }

    /// A search was answered.
    pub open spec fn after_find(
        self,
        searcher: EntityView,
        context: u64,
        r: Option<(u16, Seq<char>)>,
    ) -> ClientView {
        match r {
            Some(p) => if p.0 == 200 {
                self.sifting(
                    searcher,
                    context,
                    scan::listed_objects(p.1, "Lobbies"@),
                    Seq::empty(),
                )
            } else {
                self.telling(
                    LobbyChangeView::FindCompleted {
                        result: lobby_requests::reply_code(r),
                        searcher,
                        context,
                        rows: Seq::empty(),
                    },
                )
            },
            None => self.telling(
                LobbyChangeView::FindCompleted {
                    result: lobby_requests::reply_code(r),
                    searcher,
                    context,
                    rows: Seq::empty(),
                },
            ),
        }
    }

    /// The first of the lobbies that are still to be looked at was decided about.
    pub open spec fn sifted(
        self,
        searcher: EntityView,
        context: u64,
        rest: Seq<Seq<char>>,
        kept: Seq<Seq<char>>,
        keep: bool,
    ) -> ClientView {
        self.sifting(
            searcher,
            context,
            rest.drop_first(),
            if keep { kept.push(rest[0]) } else { kept },
        )
    }

    /// A look at a lobby that was found was answered.
    pub open spec fn after_look(
        self,
        searcher: EntityView,
        context: u64,
        rest: Seq<Seq<char>>,
        kept: Seq<Seq<char>>,
        r: Option<(u16, Seq<char>)>,
    ) -> ClientView {
        if rest.len() == 0 {
            self
        } else {
            match lobby_requests::probed(r) {
                ProbeView::Keep => self.sifted(searcher, context, rest, kept, true),
                ProbeView::Drop => self.sifted(searcher, context, rest, kept, false),
                ProbeView::AskPeers { network, owner } => self.asking(
                    false,
                    "/party/peers?network_id="@ + network,
                    Seq::empty(),
                    TaskView::AskPeers { searcher, context, owner_id: owner, rest, kept },
                ),
            }
        }
    }

    /// A look at the peers of a lobby that was found was answered.
    pub open spec fn after_peers(
        self,
        searcher: EntityView,
        context: u64,
        owner_id: Seq<char>,
        rest: Seq<Seq<char>>,
        kept: Seq<Seq<char>>,
        r: Option<(u16, Seq<char>)>,
    ) -> ClientView {
        if rest.len() == 0 {
            self
        } else {
            let peers = match r {
                Some(p) => Some(p.1),
                None => None,
            };
            self.sifted(
                searcher,
                context,
                rest,
                kept,
                lobby_requests::owner_takes_part(peers, owner_id),
            )
        }
    }

    /// A joining was answered. Where it was granted, the broker is asked for the lobby.
    pub open spec fn after_join(
        self,
        lobby: int,
        joiner: EntityView,
        connection: Seq<char>,
        values: Seq<(Seq<char>, Seq<char>)>,
        r: Option<(u16, Seq<char>)>,
    ) -> ClientView {
        let number = self.lobbies[lobby].number;
        let id = match r {
            Some(p) => lobby_json::field(lobby_model::utf8(p.1), "LobbyId"@),
            None => None,
        };
        if lobby_requests::reply_code(r) != 0 {
            self.telling(
                LobbyChangeView::JoinCompleted {
                    result: lobby_requests::reply_code(r),
                    joiner,
                    lobby: number,
                },
            )
        } else {
            match id {
                Some(id) => self.asking(
                    true,
                    "/Lobby/GetLobby"@,
                    lobby_requests::get_text(id),
                    TaskView::JoinRead { lobby, joiner, id, connection, values },
                ),
                None => self.telling(
                    LobbyChangeView::JoinCompleted {
                        result: lobby_requests::E_PF_SERVICE_MALFORMED_RESPONSE,
                        joiner,
                        lobby: number,
                    },
                ),
            }
        }
    }

    /// A look at a lobby that was joined was answered.
    pub open spec fn after_join_read(
        self,
        lobby: int,
        joiner: EntityView,
        id: Seq<char>,
        connection: Seq<char>,
        values: Seq<(Seq<char>, Seq<char>)>,
        r: Option<(u16, Seq<char>)>,
    ) -> ClientView {
        let (s, waits) = lobby_stage::reading_joined(
            self.at(lobby),
            r,
            joiner,
            id,
            connection,
            values,
        );
        let c = self.staged(lobby, s);
        if waits {
            ClientView { joins: c.joins.push(JoinView { lobby, joiner }), ..c }
        } else {
            c
        }
    }

    /// The joinings among the `n` first ones that are ready end, the last one first.
    pub open spec fn settling(self, n: nat) -> ClientView
        decreases n,
    {
        if n == 0 || n > self.joins.len() {
            self
        } else {
            let j = self.joins[n - 1];
            let c = if 0 <= j.lobby < self.lobbies.len() && lobby_requests::is_ready(
                self.lobbies[j.lobby],
            ) {
                let s = self.staged(
                    j.lobby,
                    lobby_stage::completing_join(self.at(j.lobby), j.joiner),
                );
                ClientView { joins: self.joins.remove(n - 1), ..s }
            } else {
                self
            };
            c.settling((n - 1) as nat)
        }
    }

    /// A joining of a lobby waits.
    pub open spec fn waits_for(self, lobby: int) -> bool {
        exists|k: int| 0 <= k < self.joins.len() && (#[trigger] self.joins[k]).lobby == lobby
    }

    /// A look at a lobby was answered. A lobby that was left meanwhile is left alone.
    pub open spec fn after_refresh(self, lobby: int, r: Option<(u16, Seq<char>)>) -> ClientView {
        let l = self.lobbies[lobby];
        let heard = ClientView {
            lobbies: self.lobbies.update(lobby, LobbyView { asked: false, ..l }),
            ..self
        };
        if !l.polled {
            heard
        } else {
            let c = heard.staged(
                lobby,
                lobby_stage::refreshing(heard.at(lobby), r, self.waits_for(lobby)),
            );
            c.settling(c.joins.len())
        }
    }

    /// A request was answered. One of an earlier life of the client counts no more.
    pub open spec fn after_reply(
        self,
        generation: u64,
        task: TaskView,
        r: Option<(u16, Seq<char>)>,
    ) -> ClientView {
        if !self.live || generation != self.generation {
            self
        } else {
            match task {
                TaskView::Create { lobby, owner, max, context } => if 0 <= lobby
                    < self.lobbies.len() {
                    self.staged(
                        lobby,
                        lobby_stage::completing_create(self.at(lobby), r, owner, max, context),
                    )
                } else {
                    self
                },
                TaskView::Join { lobby, joiner, connection, values } => if 0 <= lobby
                    < self.lobbies.len() {
                    self.after_join(lobby, joiner, connection, values, r)
                } else {
                    self
                },
                TaskView::JoinRead { lobby, joiner, id, connection, values } => if 0 <= lobby
                    < self.lobbies.len() {
                    self.after_join_read(lobby, joiner, id, connection, values, r)
                } else {
                    self
                },
                TaskView::Find { searcher, context } => self.after_find(searcher, context, r),
                TaskView::Look { searcher, context, rest, kept } => self.after_look(
                    searcher,
                    context,
                    rest,
                    kept,
                    r,
                ),
                TaskView::AskPeers { searcher, context, owner_id, rest, kept } => self.after_peers(
                    searcher,
                    context,
                    owner_id,
                    rest,
                    kept,
                    r,
                ),
                TaskView::Update { lobby, user, context, delta } => if 0 <= lobby
                    < self.lobbies.len() {
                    self.staged(
                        lobby,
                        lobby_stage::completing_update(self.at(lobby), r, user, context, delta),
                    )
                } else {
                    self
                },
                TaskView::Leave => self.telling(LobbyChangeView::LeaveCompleted),
                TaskView::Refresh { lobby } => if 0 <= lobby < self.lobbies.len() {
                    self.after_refresh(lobby, r)
                } else {
                    self
                },
            }
        }
    }
}

/// The rows from the second one on.
fn past_first(v: Vec<String>) -> (r: (String, Vec<String>))
    requires
        v@.len() > 0,
    ensures
        r.0@ == text::views(v@)[0],
        text::views(r.1@) == text::views(v@).drop_first(),
{
    let ghost all = text::views(v@);
    let mut v = v;
    let first = v.remove(0);
    assert(text::views(v@) =~= all.drop_first());
    (first, v)
}

impl Client {
    /// Looks at the next of the lobbies that were found, or tells the title of those that were
    /// kept.
    fn sift(&mut self, searcher: Entity, context: u64, rest: Vec<String>, kept: Vec<String>)
        ensures
            final(self)@ == old(self)@.sifting(
                searcher@,
                context,
                text::views(rest@),
                text::views(kept@),
            ),
        decreases rest@.len(),
    {
        assert(text::views(rest@).len() == rest@.len());
        if rest.len() == 0 {
            let rows = lobby_rows::read_rows(&kept);
            self.tell(LobbyChange::FindCompleted { result: 0, searcher, context, rows });
            return;
        }
        assert(text::views(rest@)[0] == rest@[0]@);
        let id = lobby_rows::read_row_id(rest[0].as_str());
        if text::is_empty(id.as_str()) {
            let (_first, others) = past_first(rest);
            assert(text::views(others@).len() == others@.len());
            self.sift(searcher, context, others, kept);
            return;
        }
        let body = lobby_requests::probe_body(id.as_str());
        self.ask(true, "/Lobby/GetLobby", body, Task::Look { searcher, context, rest, kept });
    }

    fn sift_on(
        &mut self,
        searcher: Entity,
        context: u64,
        rest: Vec<String>,
        kept: Vec<String>,
        keep: bool,
    )
        requires
            rest@.len() > 0,
        ensures
            final(self)@ == old(self)@.sifted(
                searcher@,
                context,
                text::views(rest@),
                text::views(kept@),
                keep,
            ),
    {
        let (first, others) = past_first(rest);
        let mut kept = kept;
        if keep {
            let ghost sofar = text::views(kept@);
            kept.push(first);
            assert(text::views(kept@) =~= sofar.push(first@));
        }
        self.sift(searcher, context, others, kept);
    }

    fn find_answered(&mut self, searcher: Entity, context: u64, r: &Option<(u16, String)>)
        ensures
            final(self)@ == old(self)@.after_find(searcher@, context, lobby_requests::reply(*r)),
    {
        if let Some(p) = r {
            if p.0 == 200 {
                let rows = scan::json_arr_objects(p.1.as_str(), "Lobbies");
                let none: Vec<String> = Vec::new();
                assert(text::views(none@) =~= Seq::empty());
                self.sift(searcher, context, rows, none);
                return;
            }
        }
        let result: i32 = lobby_requests::code_of(r);
        let rows: Vec<lobby_rows::SearchRow> = Vec::new();
        assert(lobby_rows::row_views(rows@) =~= Seq::empty());
        self.tell(LobbyChange::FindCompleted { result, searcher, context, rows });
    }

    fn look_answered(
        &mut self,
        searcher: Entity,
        context: u64,
        rest: Vec<String>,
        kept: Vec<String>,
        r: &Option<(u16, String)>,
    )
        ensures
            final(self)@ == old(self)@.after_look(
                searcher@,
                context,
                text::views(rest@),
                text::views(kept@),
                lobby_requests::reply(*r),
            ),
    {
        assert(text::views(rest@).len() == rest@.len());
        if rest.len() == 0 {
            return;
        }
        match lobby_requests::probe_row(r) {
            Probe::Keep => {
                self.sift_on(searcher, context, rest, kept, true);
            },
            Probe::Drop => {
                self.sift_on(searcher, context, rest, kept, false);
            },
            Probe::AskPeers { network, owner } => {
                let path = scan::peers_path(network.as_str());
                let body: Vec<u8> = Vec::new();
                assert(body@ =~= Seq::empty());
                self.ask(
                    false,
                    path.as_str(),
                    body,
                    Task::AskPeers { searcher, context, owner_id: owner, rest, kept },
                );
            },
        }
    }

    fn peers_answered(
        &mut self,
        searcher: Entity,
        context: u64,
        owner_id: &str,
        rest: Vec<String>,
        kept: Vec<String>,
        r: &Option<(u16, String)>,
    )
        ensures
            final(self)@ == old(self)@.after_peers(
                searcher@,
                context,
                owner_id@,
                text::views(rest@),
                text::views(kept@),
                lobby_requests::reply(*r),
            ),
    {
        assert(text::views(rest@).len() == rest@.len());
        if rest.len() == 0 {
            return;
        }
        let peers: Option<String> = match r {
            Some(p) => Some(p.1.clone()),
            None => None,
        };
        let keep = lobby_requests::keep_row(&peers, owner_id);
        self.sift_on(searcher, context, rest, kept, keep);
    }

    fn join_answered(
        &mut self,
        lobby: usize,
        joiner: Entity,
        connection: String,
        values: Vec<(String, String)>,
        r: &Option<(u16, String)>,
    )
        requires
            lobby < old(self).lobbies@.len(),
        ensures
            final(self)@ == old(self)@.after_join(
                lobby as int,
                joiner@,
                connection@,
                assoc::pairs(values@),
                lobby_requests::reply(*r),
            ),
    {
        assert(self@.lobbies[lobby as int] == self.lobbies@[lobby as int]@);
        let number: u64 = self.lobbies[lobby].number;
        let result: i32 = lobby_requests::code_of(r);
        if result != 0 {
            self.tell(LobbyChange::JoinCompleted { result, joiner, lobby: number });
            return;
        }
        let id = match r {
            Some(p) => lobby_json::json_str(p.1.as_str().as_bytes(), "LobbyId"),
            None => None,
        };
        match id {
            Some(id) => {
                let body = lobby_requests::get_body(id.as_str());
                self.ask(
                    true,
                    "/Lobby/GetLobby",
                    body,
                    Task::JoinRead { lobby, joiner, id, connection, values },
                );
            },
            None => {
                self.tell(
                    LobbyChange::JoinCompleted {
                        result: lobby_requests::E_PF_SERVICE_MALFORMED_RESPONSE,
                        joiner,
                        lobby: number,
                    },
                );
            },
        }
    }

    fn join_read_answered(
        &mut self,
        lobby: usize,
        joiner: Entity,
        id: &str,
        connection: &str,
        values: &Vec<(String, String)>,
        r: &Option<(u16, String)>,
    )
        requires
            lobby < old(self).lobbies@.len(),
        ensures
            final(self)@ == old(self)@.after_join_read(
                lobby as int,
                joiner@,
                id@,
                connection@,
                assoc::pairs(values@),
                lobby_requests::reply(*r),
            ),
    {
        let ghost before = self@;
        assert(before.lobbies[lobby as int] == self.lobbies@[lobby as int]@);
        let ghost (s, w) = lobby_stage::reading_joined(
            before.at(lobby as int),
            lobby_requests::reply(*r),
            joiner@,
            id@,
            connection@,
            assoc::pairs(values@),
        );
        let waits = lobby_stage::read_join(
            &mut self.lobbies[lobby],
            &mut self.pending,
            r,
            &joiner,
            id,
            connection,
            values,
        );
        assert(self@.lobbies =~= before.lobbies.update(lobby as int, s.lobby));
        assert(self@ =~= before.staged(lobby as int, s));
        if waits {
            let ghost here = self@;
            let j = PendingJoin { lobby, joiner };
            self.joins.push(j);
            assert(self@.joins =~= here.joins.push(j@));
        }
    }

    /// Ends the joinings that are ready.
    fn settle(&mut self)
        ensures
            final(self)@ == old(self)@.settling(old(self)@.joins.len()),
    {
        let ghost before = self@;
        assert(self@.joins.len() == self.joins@.len());
        let mut n: usize = self.joins.len();
        while n > 0
            invariant
                n <= self.joins@.len(),
                before.settling(before.joins.len()) == self@.settling(n as nat),
            decreases n,
        {
            let ghost here = self@;
            assert(here.joins.len() == self.joins@.len());
            assert(here.joins[n - 1] == self.joins@[n - 1]@);
            assert(here.lobbies.len() == self.lobbies@.len());
            let i: usize = self.joins[n - 1].lobby;
            if i < self.lobbies.len() && lobby_requests::lobby_ready_for_guest(&self.lobbies[i]) {
                assert(here.lobbies[i as int] == self.lobbies@[i as int]@);
                let j = self.joins.remove(n - 1);
                assert(self@.joins =~= here.joins.remove(n - 1));
                lobby_stage::emit_join_completed(
                    &mut self.lobbies[i],
                    &mut self.pending,
                    &j.joiner,
                );
                let ghost s = lobby_stage::completing_join(here.at(i as int), j.joiner@);
                assert(self@.lobbies =~= here.lobbies.update(i as int, s.lobby));
                assert(self@ =~= (ClientView {
                    joins: here.joins.remove(n - 1),
                    ..here.staged(i as int, s)
                }));
                assert(self@.joins.len() == self.joins@.len());
            } else {
                assert(i < here.lobbies.len() ==> here.lobbies[i as int] == self.lobbies@[i as int]@);
            }
            n -= 1;
        }
    }

    fn has_waiting(&self, lobby: usize) -> (r: bool)
        ensures
            r == self@.waits_for(lobby as int),
    {
        assert(self@.joins.len() == self.joins@.len());
        let mut k: usize = 0;
        while k < self.joins.len()
            invariant
                k <= self.joins@.len(),
                self@.joins.len() == self.joins@.len(),
                forall|j: int| 0 <= j < k ==> (#[trigger] self@.joins[j]).lobby != lobby,
            decreases self.joins@.len() - k,
        {
            assert(self@.joins[k as int] == self.joins@[k as int]@);
            if self.joins[k].lobby == lobby {
                return true;
            }
            k += 1;
        }
        false
    }

    fn refresh_answered(&mut self, lobby: usize, r: &Option<(u16, String)>)
        requires
            lobby < old(self).lobbies@.len(),
        ensures
            final(self)@ == old(self)@.after_refresh(lobby as int, lobby_requests::reply(*r)),
    {
        let ghost before = self@;
        assert(before.lobbies[lobby as int] == self.lobbies@[lobby as int]@);
        let waiting = self.has_waiting(lobby);
        let polled = self.lobbies[lobby].polled;
        self.lobbies[lobby].asked = false;
        let ghost heard = ClientView {
            lobbies: before.lobbies.update(
                lobby as int,
                LobbyView { asked: false, ..before.lobbies[lobby as int] },
            ),
            ..before
        };
        assert(self@.lobbies =~= heard.lobbies);
        assert(self@ =~= heard);
        if !polled {
            return;
        }
        let ghost s = lobby_stage::refreshing(
            heard.at(lobby as int),
            lobby_requests::reply(*r),
            waiting,
        );
        lobby_stage::refresh_lobby(&mut self.lobbies[lobby], &mut self.pending, r, waiting);
        assert(self@.lobbies =~= heard.lobbies.update(lobby as int, s.lobby));
        assert(self@ =~= heard.staged(lobby as int, s));
        self.settle();
    }

    /// Takes an answer of the broker over; there is none where the broker could not be reached.
    pub fn answer(&mut self, job: Job, r: &Option<(u16, String)>)
        ensures
            final(self)@ == old(self)@.after_reply(
                job@.generation,
                job@.task,
                lobby_requests::reply(*r),
            ),
    {
        let ghost before = self@;
        assert(before.lobbies.len() == self.lobbies@.len());
        if !self.live || job.generation != self.generation {
            return;
        }
        match job.task {
            Task::Create { lobby, owner, max, context } => {
                if lobby < self.lobbies.len() {
                    assert(before.lobbies[lobby as int] == self.lobbies@[lobby as int]@);
                    lobby_stage::complete_create(
                        &mut self.lobbies[lobby],
                        &mut self.pending,
                        r,
                        &owner,
                        max,
                        context,
                    );
                    let ghost s = lobby_stage::completing_create(
                        before.at(lobby as int),
                        lobby_requests::reply(*r),
                        owner@,
                        max,
                        context,
                    );
                    assert(self@.lobbies =~= before.lobbies.update(lobby as int, s.lobby));
                    assert(self@ =~= before.staged(lobby as int, s));
                }
            },
            Task::Join { lobby, joiner, connection, values } => {
                if lobby < self.lobbies.len() {
                    self.join_answered(lobby, joiner, connection, values, r);
                }
            },
            Task::JoinRead { lobby, joiner, id, connection, values } => {
                if lobby < self.lobbies.len() {
                    self.join_read_answered(
                        lobby,
                        joiner,
                        id.as_str(),
                        connection.as_str(),
                        &values,
                        r,
                    );
                }
            },
            Task::Find { searcher, context } => {
                self.find_answered(searcher, context, r);
            },
            Task::Look { searcher, context, rest, kept } => {
                self.look_answered(searcher, context, rest, kept, r);
            },
            Task::AskPeers { searcher, context, owner_id, rest, kept } => {
                self.peers_answered(searcher, context, owner_id.as_str(), rest, kept, r);
            },
            Task::Update { lobby, user, context, delta } => {
                if lobby < self.lobbies.len() {
                    assert(before.lobbies[lobby as int] == self.lobbies@[lobby as int]@);
                    let ghost s = lobby_stage::completing_update(
                        before.at(lobby as int),
                        lobby_requests::reply(*r),
                        lobby_model::opt_entity(user),
                        context,
                        delta@,
                    );
                    lobby_stage::complete_update(
                        &mut self.lobbies[lobby],
                        &mut self.pending,
                        r,
                        user,
                        context,
                        delta,
                    );
                    assert(self@.lobbies =~= before.lobbies.update(lobby as int, s.lobby));
                    assert(self@ =~= before.staged(lobby as int, s));
                }
            },
            Task::Leave => {
                self.tell(LobbyChange::LeaveCompleted);
            },
            Task::Refresh { lobby } => {
                if lobby < self.lobbies.len() {
                    self.refresh_answered(lobby, r);
                }
            },
        }
    }
}

/// An answer to a request of an earlier life of the client changes nothing.
pub proof fn stale_answer_is_dropped(c: ClientView, task: TaskView, r: Option<(u16, Seq<char>)>)
    ensures
        ({
            let d = (ClientView { live: false, ..c }).initialized();
            d.after_reply(c.generation, task, r) == d
        }),
        ({
            let d = ClientView { live: false, ..c };
            d.after_reply(c.generation, task, r) == d
        }),
{
}

/// While the title has what it was told, it is told nothing else: asking again gives the same, and
/// what is queued stays queued.
pub proof fn batch_stays_until_given_back(c: ClientView, now: u64)
    requires
        c.outstanding,
    ensures
        c.starting(now).in_flight == c.in_flight,
        c.starting(now).outstanding,
        c.starting(now).pending == c.pending,
{
    lemma_looking_keeps(c, c.lobbies.len());
}

/// The title is told everything that is queued, in order.
pub proof fn whole_queue_is_handed_out(c: ClientView, now: u64)
    requires
        !c.outstanding,
    ensures
        c.starting(now).in_flight == c.pending,
        c.starting(now).pending.len() == 0,
        c.starting(now).outstanding == (c.pending.len() > 0),
{
    lemma_looking_keeps(c, c.lobbies.len());
}

/// Giving back anything but what was handed out changes nothing; giving that back makes room for
/// the next.
pub proof fn only_the_batch_is_taken_back(c: ClientView, count: u32, same: bool)
    ensures
        reclaim_of(c, count, same) != Reclaim::Done ==> c.finishing(count, same) == c,
        reclaim_of(c, count, same) == Reclaim::Done ==> {
            &&& !c.finishing(count, same).outstanding
            &&& c.finishing(count, same).pending == c.pending
        },
{
}

/// The broker is asked for each lobby at most once at a time, and for none that was left.
pub proof fn looks_are_not_repeated(c: ClientView, now: u64, i: int)
    requires
        0 <= i < c.lobbies.len(),
        c.lobbies[i].asked || !c.lobbies[i].polled,
    ensures
        forall|k: int|
            c.jobs.len() <= k < c.starting(now).jobs.len() ==> (
            #[trigger] c.starting(now).jobs[k]).task != (TaskView::Refresh { lobby: i }),
        c.starting(now).jobs.len() >= c.jobs.len(),
{
    lemma_looking_jobs(c, c.lobbies.len(), i);
}

proof fn lemma_looking_jobs(c: ClientView, n: nat, i: int)
    requires
        n <= c.lobbies.len(),
        0 <= i < c.lobbies.len(),
        c.lobbies[i].asked || !c.lobbies[i].polled,
    ensures
        forall|k: int|
            c.jobs.len() <= k < c.looking(n).jobs.len() ==> (#[trigger] c.looking(n).jobs[k]).task
                != (TaskView::Refresh { lobby: i }),
        c.looking(n).jobs.len() >= c.jobs.len(),
    decreases n,
{
    if n > 0 {
        lemma_looking_jobs(c, (n - 1) as nat, i);
        let before = c.looking((n - 1) as nat);
        let after = c.looking(n);
        assert forall|k: int| c.jobs.len() <= k < after.jobs.len() implies (
        #[trigger] after.jobs[k]).task != (TaskView::Refresh { lobby: i }) by {
            if k < before.jobs.len() {
                assert(after.jobs[k] == before.jobs[k]);
            }
        }
    }
}

/// Of a lobby that was left the title is told nothing by a look that was under way, and no update
/// of it is taken.
pub proof fn left_lobby_is_quiet(
    c: ClientView,
    lobby: int,
    r: Option<(u16, Seq<char>)>,
    data: DataUpdate,
)
    requires
        0 <= lobby < c.lobbies.len(),
        c.lobbies.len() <= u64::MAX,
    ensures
        ({
            let d = c.leaving(lobby);
            &&& d.after_refresh(lobby, r).pending == c.pending
            &&& post_code(d, lobby as u64, Some(data), None)
                == lobby_requests::E_PF_LOBBY_UPDATE_AFTER_DISCONNECT
        }),
{
}

/// A joining that is not ready is not told of.
pub proof fn unready_join_waits(
    c: ClientView,
    lobby: int,
    joiner: EntityView,
    id: Seq<char>,
    connection: Seq<char>,
    values: Seq<(Seq<char>, Seq<char>)>,
    r: Option<(u16, Seq<char>)>,
)
    requires
        0 <= lobby < c.lobbies.len(),
        ({
            let (code, told) = lobby_stage::joined_lobby(
                r,
                id,
                connection,
                c.lobbies[lobby].number,
            );
            code == 0 && !lobby_requests::is_ready(told)
        }),
    ensures
        ({
            let d = c.after_join_read(lobby, joiner, id, connection, values, r);
            &&& d.pending == c.pending
            &&& d.waits_for(lobby)
            &&& d.lobbies[lobby].pending
        }),
{
    let d = c.after_join_read(lobby, joiner, id, connection, values, r);
    assert(d.joins[c.joins.len() as int].lobby == lobby);
    lemma_told_pending(r, id, connection, c.lobbies[lobby].number);
}

proof fn lemma_told_pending(
    r: Option<(u16, Seq<char>)>,
    id: Seq<char>,
    connection: Seq<char>,
    number: u64,
)
    ensures
        lobby_stage::joined_lobby(r, id, connection, number).1.pending,
        lobby_stage::joined_lobby(r, id, connection, number).1.number == number,
{
}

/// Each lobby is known by its place.
pub open spec fn numbered(c: ClientView) -> bool {
    forall|i: int| 0 <= i < c.lobbies.len() ==> (#[trigger] c.lobbies[i]).number == i as u64
}

/// A lobby that the title creates or joins gets the number that the title is given, and the other
/// lobbies keep theirs.
pub proof fn numbers_stay(
    c: ClientView,
    entity: Option<EntityView>,
    config: Option<CreateConfig>,
    connection: Seq<char>,
    values: Seq<(Seq<char>, Seq<char>)>,
    context: u64,
)
    requires
        numbered(c),
    ensures
        numbered(c.creating(entity, config, values, context)),
        numbered(c.joining(entity, connection, values)),
{
}

}
