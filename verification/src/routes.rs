//! Which request is answered by what: the game service, the meshes, the lobby service, the boot
//! configuration and everything else.
use crate::assoc;
use crate::broker;
use crate::broker::{App, AppModel, Moment, MomentView, Reply, ReplyModel};
use crate::codec;
use crate::ini;
use crate::ini::EntryView;
use crate::json;
use crate::json::{Json, JsonView};
use crate::lobbies;
use crate::lobby_filter::{Numerals, NumeralsView};
use crate::mesh;
use crate::search;
use crate::text;
use vstd::prelude::*;
use vstd::utf8::encode_utf8;

verus! {

/// What a request to the lobby service asks for.
#[derive(Clone, Copy, Debug, PartialEq, Eq, Structural)]
pub enum Route {
    Login,
    EntityToken,
    Create,
    Join,
    Find,
    Leave,
    Update,
    Get,
    /// Something of the service that needs no answer but success.
    Accept,
    /// Nothing of the service.
    Elsewhere,
}

/// `p` stands somewhere in `s`.
pub open spec fn holds_text(s: Seq<char>, p: Seq<char>) -> bool {
    text::find_text(s, p) is Some
}

/// A text without its underscores.
pub open spec fn without_underscores(s: Seq<char>) -> Seq<char>
    decreases s.len(),
{
    if s.len() == 0 {
        Seq::empty()
    } else if s.last() == '_' {
        without_underscores(s.drop_last())
    } else {
        without_underscores(s.drop_last()).push(s.last())
    }
}

/// What a path asks for, whatever the case of its letters.
pub open spec fn route_of(path: Seq<char>) -> Route {
    let l = text::lowered(mesh::bare_path(path));
    if text::ends(l, "loginwithsteam"@) {
        Route::Login
    } else if holds_text(without_underscores(l), "getentitytoken"@) {
        Route::EntityToken
    } else if holds_text(l, "createandjoinlobby"@) || text::ends(l, "lobby/createlobby"@) {
        Route::Create
    } else if text::ends(l, "joinlobby"@) {
        Route::Join
    } else if holds_text(l, "findlobbies"@) {
        Route::Find
    } else if holds_text(l, "leavelobby"@) {
        Route::Leave
    } else if holds_text(l, "updatelobby"@) || holds_text(l, "postlobby"@) {
        Route::Update
    } else if holds_text(l, "getlobby"@) {
        Route::Get
    } else if text::begins(l, "client/"@) || text::begins(l, "lobby/"@) || text::begins(
        l,
        "authentication/"@,
    ) {
        Route::Accept
    } else {
        Route::Elsewhere
    }
}

/// Whether a text stands somewhere in another.
fn contains_text(s: &[char], p: &str) -> (r: bool)
    ensures
        r == holds_text(s@, p@),
{
    let p = text::chars_of(p);
    text::find_in(s, p.as_slice()).is_some()
}

fn ends_in(s: &[char], p: &str) -> (r: bool)
    ensures
        r == text::ends(s@, p@),
{
    let p = text::chars_of(p);
    text::ends_with(s, p.as_slice())
}

fn starts_in(s: &[char], p: &str) -> (r: bool)
    ensures
        r == text::begins(s@, p@),
{
    let p = text::chars_of(p);
    text::starts_with(s, p.as_slice())
}

/// A text without its underscores.
fn drop_underscores(s: &[char]) -> (r: Vec<char>)
    ensures
        r@ == without_underscores(s@),
{
    let mut r: Vec<char> = Vec::new();
    let mut i: usize = 0;
    assert(s@.take(0) =~= Seq::empty());
    while i < s.len()
        invariant
            i <= s@.len(),
            r@ == without_underscores(s@.take(i as int)),
        decreases s@.len() - i,
    {
        if s[i] != '_' {
            r.push(s[i]);
        }
        i += 1;
        assert(s@.take(i as int).drop_last() =~= s@.take(i - 1));
    }
    assert(s@.take(i as int) =~= s@);
    r
}

/// What a path asks for.
pub fn playfab_route(path: &[char]) -> (r: Route)
    ensures
        r == route_of(path@),
{
    let lower = text::to_lowered(mesh::strip_slashes(path));
    let l = lower.as_slice();
    if ends_in(l, "loginwithsteam") {
        Route::Login
    } else if contains_text(drop_underscores(l).as_slice(), "getentitytoken") {
        Route::EntityToken
    } else if contains_text(l, "createandjoinlobby") || ends_in(l, "lobby/createlobby") {
        Route::Create
    } else if ends_in(l, "joinlobby") {
        Route::Join
    } else if contains_text(l, "findlobbies") {
        Route::Find
    } else if contains_text(l, "leavelobby") {
        Route::Leave
    } else if contains_text(l, "updatelobby") || contains_text(l, "postlobby") {
        Route::Update
    } else if contains_text(l, "getlobby") {
        Route::Get
    } else if starts_in(l, "client/") || starts_in(l, "lobby/") || starts_in(l, "authentication/") {
        Route::Accept
    } else {
        Route::Elsewhere
    }
}

/// What a lobby that was just made is answered with.
pub open spec fn made_view(l: broker::LobbyState) -> JsonView {
    JsonView::Object(
        seq![
            ("LobbyId"@, JsonView::Text(l.id)),
            ("ConnectionString"@, JsonView::Text(l.connection)),
            ("MaxPlayers"@, json::int_view(l.max_players as int)),
        ],
    )
}

/// What a request to the lobby service leads to; `None` where it is none.
pub open spec fn serve_playfab(
    a: AppModel,
    path: Seq<char>,
    body: JsonView,
    headers: Seq<(Seq<char>, Seq<char>)>,
    stamp: Seq<char>,
    now: u64,
    n: NumeralsView,
) -> (AppModel, Option<ReplyModel>) {
    match route_of(path) {
        Route::Login => {
            let p = broker::player_of(
                lobbies::or_text(body.text_either("SteamTicket"@, "steamTicket"@), Seq::empty()),
            );
            (a.with_player(p), Some(broker::ok_reply(broker::login_view(p))))
        },
        Route::EntityToken => {
            let (b, p) = a.acting(
                body,
                headers,
                lobbies::or_text(body.text_field("SteamTicket"@), "anonymous"@),
            );
            (b, Some(broker::ok_reply(broker::token_view(p))))
        },
        Route::Create => {
            let (b, p) = a.acting(body, headers, "anonymous"@);
            (
                lobbies::with_new_lobby(b, body, p, stamp, now),
                Some(
                    broker::ok_reply(made_view(lobbies::new_lobby(b, body, p, stamp, now))),
                ),
            )
        },
        Route::Join => {
            let (b, r) = lobbies::join(a, body, headers);
            (b, Some(r))
        },
        Route::Find => (
            a,
            Some(
                broker::ok_reply(search::search_view(a, body, a.requester(body, headers), n)),
            ),
        ),
        Route::Leave => (
            lobbies::leave(a, body, headers),
            Some(broker::ok_reply(broker::nothing())),
        ),
        Route::Update => (
            lobbies::update(a, body, headers),
            Some(broker::ok_reply(broker::nothing())),
        ),
        Route::Get => (a, Some(lobbies::get(a, body))),
        Route::Accept => (a, Some(broker::ok_reply(broker::nothing()))),
        Route::Elsewhere => (a, None),
    }
}

impl App {
    /// Answers a request to make a lobby.
    fn make_lobby(
        &mut self,
        body: &Json,
        headers: &Vec<(String, String)>,
        stamp: &str,
        now: u64,
    ) -> (r: Reply)
        ensures
            ({
                let (b, p) = old(self)@.acting(body@, assoc::pairs(headers@), "anonymous"@);
                &&& final(self)@ == lobbies::with_new_lobby(b, body@, p, stamp@, now)
                &&& r@ == broker::ok_reply(
                    made_view(lobbies::new_lobby(b, body@, p, stamp@, now)),
                )
            }),
            old(self)@.wf() ==> final(self)@.wf(),
    {
        let player = self.acting_player(body, headers, "anonymous");
        let ghost b = self@;
        let ghost l = lobbies::new_lobby(b, body@, player@, stamp@, now);
        let id = self.create_lobby(body, &player, stamp, now);
        proof {
            let rest = if player@.entity_id.len() == 0 {
                b.lobbies
            } else {
                lobbies::not_owned_by(b.lobbies, player@.entity_id)
            };
            assoc::set_is_found(rest, l.id, l, Seq::empty());
        }
        match assoc::get(&self.lobbies, id.as_str()) {
            Some(lobby) => {
                let mut o = broker::start();
                json::add_member(&mut o, "LobbyId", json::string(lobby.id.as_str()));
                json::add_member(
                    &mut o,
                    "ConnectionString",
                    json::string(lobby.connection.as_str()),
                );
                json::add_member(&mut o, "MaxPlayers", json::integer_value(lobby.max_players));
                let data = json::object(o);
                assert(data@->Object_0 =~= made_view(l)->Object_0);
                broker::playfab_ok(data)
            },
            None => broker::playfab_ok(broker::empty_object()),
        }
    }

    /// Answers a request to the lobby service; `None` where it is none.
    pub fn handle_playfab(
        &mut self,
        path: &[char],
        body: &Json,
        headers: &Vec<(String, String)>,
        stamp: &str,
        now: u64,
        numerals: &Numerals,
    ) -> (r: Option<Reply>)
        requires
            old(self)@.wf(),
        ensures
            (final(self)@, mesh::reply_view(r)) == serve_playfab(
                old(self)@,
                path@,
                body@,
                assoc::pairs(headers@),
                stamp@,
                now,
                numerals@,
            ),
            final(self)@.wf(),
    {
        match playfab_route(path) {
            Route::Login => {
                proof {
                    reveal_strlit("");
                    assert(""@ =~= Seq::empty());
                }
                let p = self.player_from_ticket(
                    match body.text_either("SteamTicket", "steamTicket") {
                        Some(t) => t,
                        None => "",
                    },
                );
                Some(broker::playfab_ok(broker::login_result(&p)))
            },
            Route::EntityToken => {
                let p = self.acting_player(
                    body,
                    headers,
                    match body.text_field("SteamTicket") {
                        Some(t) => t,
                        None => "anonymous",
                    },
                );
                Some(broker::playfab_ok(broker::token_obj(&p)))
            },
            Route::Create => Some(self.make_lobby(body, headers, stamp, now)),
            Route::Join => Some(self.join_lobby(body, headers)),
            Route::Find => Some(self.find_lobbies(body, headers, numerals)),
            Route::Leave => {
                self.leave_lobby(body, headers);
                Some(broker::playfab_ok(broker::empty_object()))
            },
            Route::Update => {
                self.update_lobby(body, headers);
                Some(broker::playfab_ok(broker::empty_object()))
            },
            Route::Get => Some(self.get_lobby(body)),
            Route::Accept => Some(broker::playfab_ok(broker::empty_object())),
            Route::Elsewhere => None,
        }
    }
}

// The game service

/// The host name under which the broker was asked, else another.
pub open spec fn asked_host(headers: Seq<(Seq<char>, Seq<char>)>, other: Seq<char>) -> Seq<char> {
    match assoc::lookup(headers, "host"@) {
        Some(h) => {
            let name = h.take(text::find(h, ':'));
            if name.len() > 0 { name } else { other }
        },
        None => other,
    }
}

/// A URL of the broker: scheme, host, port and the rest.
pub open spec fn url(scheme: Seq<char>, host: Seq<char>, port: u16, rest: Seq<char>) -> Seq<char> {
    scheme + "://"@ + host + ":"@ + text::decimal(port as nat) + rest
}

/// What the game service answers a path with; `None` where it has none.
pub open spec fn serve_game(
    a: AppModel,
    path: Seq<char>,
    headers: Seq<(Seq<char>, Seq<char>)>,
    stamp: Seq<char>,
) -> Option<ReplyModel> {
    let p = mesh::bare_path(path);
    if p == "sys/get_terms"@ || p == "get_terms"@ {
        Some(
            broker::game_reply(
                JsonView::Object(
                    seq![
                        ("pp_version"@, json::int_view(1)),
                        ("playlog"@, json::int_view(1)),
                        ("sc"@, json::int_view(0)),
                    ],
                ),
            ),
        )
    } else if p == "sys/get_news"@ || p == "get_news"@ {
        Some(
            broker::game_reply(
                JsonView::Object(
                    seq![
                        ("list_size"@, json::int_view(0)),
                        ("list"@, JsonView::Array(Seq::empty())),
                    ],
                ),
            ),
        )
    } else if p == "sys/user_auth"@ || p == "user_auth"@ || p == "sys/external_user_auth"@ || p
        == "external_user_auth"@ {
        Some(
            broker::game_reply(
                JsonView::Object(
                    seq![
                        (
                            "auth_token"@,
                            JsonView::Text(
                                "lan-auth."@ + codec::sha1_hex_of(stamp).take(16),
                            ),
                        ),
                        (
                            "ws_url"@,
                            JsonView::Text(
                                url("ws"@, asked_host(headers, "127.0.0.1"@), a.ws_port, "/"@),
                            ),
                        ),
                        ("ws_api_key"@, JsonView::Text("lan-ws-api-key"@)),
                        ("cygames_id_linked"@, JsonView::Bool(false)),
                    ],
                ),
            ),
        )
    } else if p == "activity/get_invite_list"@ || p == "activity/get_presence_list"@ {
        Some(broker::game_reply(broker::nothing()))
    } else if p == "cygames_id/check_reward"@ {
        Some(
            broker::game_reply(
                JsonView::Object(
                    seq![
                        ("has_link_reward"@, JsonView::Bool(false)),
                        ("has_cross_reward"@, JsonView::Bool(false)),
                    ],
                ),
            ),
        )
    } else if text::begins(p, "cygames_id/"@) {
        Some(
            broker::game_reply(
                JsonView::Object(
                    seq![
                        ("is_pending"@, JsonView::Bool(false)),
                        ("link_status"@, json::int_view(0)),
                    ],
                ),
            ),
        )
    } else if text::begins(p, "playlog"@) {
        Some(broker::game_reply(broker::nothing()))
    } else {
        None
    }
}

/// The host name under which the broker was asked.
pub fn advert_host(headers: &Vec<(String, String)>, fallback: &str) -> (r: String)
    ensures
        r@ == asked_host(assoc::pairs(headers@), fallback@),
{
    if let Some(h) = assoc::get(headers, "host") {
        let v = text::chars_of(h.as_str());
        let k: usize = text::find_char(v.as_slice(), ':');
        if k > 0 {
            return text::text_of(text::head(v.as_slice(), k));
        }
    }
    fallback.to_owned()
}

/// A URL of the broker.
fn make_url(scheme: &str, host: &str, port: u16, rest: &str) -> (r: String)
    ensures
        r@ == url(scheme@, host@, port, rest@),
{
    let mut r = String::new();
    r.append(scheme);
    r.append("://");
    r.append(host);
    r.append(":");
    text::push_decimal(&mut r, port as u64);
    r.append(rest);
    assert(r@ =~= url(scheme@, host@, port, rest@));
    r
}

/// The first `n` characters of a digest after a prefix.
fn digest_name(prefix: &str, stamp: &str, n: usize) -> (r: String)
    requires
        n <= 40,
    ensures
        r@ == prefix@ + codec::sha1_hex_of(stamp@).take(n as int),
{
    let d = codec::sha1_hex(stamp);
    let v = text::chars_of(d.as_str());
    let mut r = String::new();
    r.append(prefix);
    r.append(text::text_of(text::head(v.as_slice(), n)).as_str());
    assert(r@ =~= prefix@ + d@.take(n as int));
    r
}

/// An object of two members.
fn pair(a: &str, x: Json, b: &str, y: Json) -> (r: Json)
    ensures
        r@ == JsonView::Object(seq![(a@, x@), (b@, y@)]),
{
    let mut o = broker::start();
    json::add_member(&mut o, a, x);
    json::add_member(&mut o, b, y);
    let r = json::object(o);
    assert(r@->Object_0 =~= seq![(a@, x@), (b@, y@)]);
    r
}

impl App {
    /// What a login to the game service is answered with.
    fn user_auth(&self, headers: &Vec<(String, String)>, stamp: &str) -> (r: Json)
        ensures
            r@ == JsonView::Object(
                seq![
                    (
                        "auth_token"@,
                        JsonView::Text("lan-auth."@ + codec::sha1_hex_of(stamp@).take(16)),
                    ),
                    (
                        "ws_url"@,
                        JsonView::Text(
                            url(
                                "ws"@,
                                asked_host(assoc::pairs(headers@), "127.0.0.1"@),
                                self@.ws_port,
                                "/"@,
                            ),
                        ),
                    ),
                    ("ws_api_key"@, JsonView::Text("lan-ws-api-key"@)),
                    ("cygames_id_linked"@, JsonView::Bool(false)),
                ],
            ),
    {
        let host = advert_host(headers, "127.0.0.1");
        let mut o = broker::start();
        json::add_member(&mut o, "auth_token", Json::Text(digest_name("lan-auth.", stamp, 16)));
        json::add_member(
            &mut o,
            "ws_url",
            Json::Text(make_url("ws", host.as_str(), self.ws_port, "/")),
        );
        json::add_member(&mut o, "ws_api_key", json::string("lan-ws-api-key"));
        json::add_member(&mut o, "cygames_id_linked", Json::Bool(false));
        let r = json::object(o);
        assert(r@->Object_0 =~= seq![
            (
                "auth_token"@,
                JsonView::Text("lan-auth."@ + codec::sha1_hex_of(stamp@).take(16)),
            ),
            (
                "ws_url"@,
                JsonView::Text(
                    url(
                        "ws"@,
                        asked_host(assoc::pairs(headers@), "127.0.0.1"@),
                        self@.ws_port,
                        "/"@,
                    ),
                ),
            ),
            ("ws_api_key"@, JsonView::Text("lan-ws-api-key"@)),
            ("cygames_id_linked"@, JsonView::Bool(false)),
        ]);
        r
    }

    /// Answers a request to the game service; `None` where it is none.
    pub fn handle_cygames(
        &self,
        path: &[char],
        headers: &Vec<(String, String)>,
        stamp: &str,
    ) -> (r: Option<Reply>)
        ensures
            mesh::reply_view(r) == serve_game(self@, path@, assoc::pairs(headers@), stamp@),
    {
        let p = mesh::strip_slashes(path);
        if text::is_text(p, "sys/get_terms") || text::is_text(p, "get_terms") {
            let mut o = broker::start();
            json::add_member(&mut o, "pp_version", json::integer_value(1));
            json::add_member(&mut o, "playlog", json::integer_value(1));
            json::add_member(&mut o, "sc", json::integer_value(0));
            let data = json::object(o);
            assert(data@->Object_0 =~= seq![
                ("pp_version"@, json::int_view(1)),
                ("playlog"@, json::int_view(1)),
                ("sc"@, json::int_view(0)),
            ]);
            return Some(broker::cygames_ok(data));
        }
        if text::is_text(p, "sys/get_news") || text::is_text(p, "get_news") {
            return Some(
                broker::cygames_ok(
                    pair("list_size", json::integer_value(0), "list", broker::empty_array()),
                ),
            );
        }
        if text::is_text(p, "sys/user_auth") || text::is_text(p, "user_auth") || text::is_text(
            p,
            "sys/external_user_auth",
        ) || text::is_text(p, "external_user_auth") {
            return Some(broker::cygames_ok(self.user_auth(headers, stamp)));
        }
        if text::is_text(p, "activity/get_invite_list") || text::is_text(
            p,
            "activity/get_presence_list",
        ) {
            return Some(broker::cygames_ok(broker::empty_object()));
        }
        if text::is_text(p, "cygames_id/check_reward") {
            return Some(
                broker::cygames_ok(
                    pair("has_link_reward", Json::Bool(false), "has_cross_reward", Json::Bool(false)),
                ),
            );
        }
        if starts_in(p, "cygames_id/") {
            return Some(
                broker::cygames_ok(
                    pair("is_pending", Json::Bool(false), "link_status", json::integer_value(0)),
                ),
            );
        }
        if starts_in(p, "playlog") {
            return Some(broker::cygames_ok(broker::empty_object()));
        }
        None
    }
}

// The boot configuration

/// The configuration that the game boots with.
pub open spec fn boot_view(
    a: AppModel,
    headers: Seq<(Seq<char>, Seq<char>)>,
    now_secs: int,
) -> JsonView {
    let host = asked_host(headers, "127.0.0.1"@);
    let x = JsonView::Text("x"@);
    JsonView::Object(
        seq![
            ("PlayfabTitleId"@, JsonView::Text(a.title_id)),
            ("PlaylogUrl"@, JsonView::Text(url("http"@, host, a.http_port, "/playlog"@))),
            (
                "NetworkStatsUrl"@,
                JsonView::Text(url("http"@, host, a.http_port, "/playlog/network-stats"@)),
            ),
            ("GameapiUrl"@, JsonView::Text(url("http"@, host, a.http_port, ""@))),
            ("WebsocketUrl"@, JsonView::Text(url("ws"@, host, a.ws_port, "/"@))),
            ("CidpUrl"@, x),
            ("CidpOfficialUrl"@, x),
            ("CidpClientId"@, x),
            ("PrivacyPolicyUrl"@, x),
            ("SurveyUrl"@, x),
            ("ActivateDateSec"@, json::int_view(now_secs - 86400)),
            ("DeactivateDateSec"@, json::int_view(now_secs + 315360000)),
            ("MatchingSearchWaitTimeMinSec"@, json::int_view(0)),
            ("MatchingSearchWaitTimeMaxSec"@, json::int_view(3600)),
            ("MatchingRemainingMaxCounter"@, json::int_view(10)),
            ("MatchingDefaultSearchLimit"@, json::int_view(20)),
            ("MatchingEnableFindListSort"@, json::int_view(1)),
            ("SearchWaitTimeMinSec"@, json::int_view(0)),
            ("SearchWaitTimeMaxSec"@, json::int_view(3600)),
            ("RemainingMaxCounter"@, json::int_view(10)),
        ],
    )
}

impl App {
    /// The configuration that the game boots with.
    pub fn boot_config(&self, headers: &Vec<(String, String)>, now_secs: u64) -> (r: Json)
        requires
            now_secs <= i64::MAX - 315360000,
        ensures
            r@ == boot_view(self@, assoc::pairs(headers@), now_secs as int),
    {
        let host = advert_host(headers, "127.0.0.1");
        let h = host.as_str();
        let now: i64 = now_secs as i64;
        let mut o = broker::start();
        json::add_member(&mut o, "PlayfabTitleId", json::string(self.title_id.as_str()));
        json::add_member(
            &mut o,
            "PlaylogUrl",
            Json::Text(make_url("http", h, self.http_port, "/playlog")),
        );
        json::add_member(
            &mut o,
            "NetworkStatsUrl",
            Json::Text(make_url("http", h, self.http_port, "/playlog/network-stats")),
        );
        json::add_member(&mut o, "GameapiUrl", Json::Text(make_url("http", h, self.http_port, "")));
        json::add_member(&mut o, "WebsocketUrl", Json::Text(make_url("ws", h, self.ws_port, "/")));
        json::add_member(&mut o, "CidpUrl", json::string("x"));
        json::add_member(&mut o, "CidpOfficialUrl", json::string("x"));
        json::add_member(&mut o, "CidpClientId", json::string("x"));
        json::add_member(&mut o, "PrivacyPolicyUrl", json::string("x"));
        json::add_member(&mut o, "SurveyUrl", json::string("x"));
        json::add_member(&mut o, "ActivateDateSec", json::integer_value(now - 86400));
        json::add_member(&mut o, "DeactivateDateSec", json::integer_value(now + 315360000));
        json::add_member(&mut o, "MatchingSearchWaitTimeMinSec", json::integer_value(0));
        json::add_member(&mut o, "MatchingSearchWaitTimeMaxSec", json::integer_value(3600));
        json::add_member(&mut o, "MatchingRemainingMaxCounter", json::integer_value(10));
        json::add_member(&mut o, "MatchingDefaultSearchLimit", json::integer_value(20));
        json::add_member(&mut o, "MatchingEnableFindListSort", json::integer_value(1));
        json::add_member(&mut o, "SearchWaitTimeMinSec", json::integer_value(0));
        json::add_member(&mut o, "SearchWaitTimeMaxSec", json::integer_value(3600));
        json::add_member(&mut o, "RemainingMaxCounter", json::integer_value(10));
        let r = json::object(o);
        assert(r@->Object_0 =~= boot_view(
            self@,
            assoc::pairs(headers@),
            now_secs as int,
        )->Object_0);
        r
    }
}

/// A path that asks for the boot configuration.
pub open spec fn asks_for_boot(path: Seq<char>) -> bool {
    let l = text::lowered(path);
    text::ends(l, ".json"@) || text::ends(l, ".dat"@) || text::ends(l, ".blob"@) || holds_text(
        l,
        "config"@,
    )
}

pub fn is_boot_path(path: &[char]) -> (r: bool)
    ensures
        r == asks_for_boot(path@),
{
    let lower = text::to_lowered(path);
    let l = lower.as_slice();
    ends_in(l, ".json") || ends_in(l, ".dat") || ends_in(l, ".blob") || contains_text(l, "config")
}

// Every request

/// A path without its query and without the prefixes under which the service is also reached.
pub open spec fn stripped(path: Seq<char>) -> Seq<char> {
    let p = mesh::path_part(path);
    if text::begins(p, "/v1/api/index.php/"@) {
        "/"@ + mesh::bare_path(p.skip(18))
    } else if text::begins(p, "/v1/api/"@) {
        "/"@ + mesh::bare_path(p.skip(8))
    } else if text::begins(p, "/index.php/"@) {
        "/"@ + mesh::bare_path(p.skip(11))
    } else if text::begins(p, "/api/"@) {
        "/"@ + mesh::bare_path(p.skip(5))
    } else {
        p
    }
}

/// The rest of a path behind a prefix, behind one slash.
fn behind(p: &[char], k: usize) -> (r: Vec<char>)
    requires
        k <= p@.len(),
    ensures
        r@ == "/"@ + mesh::bare_path(p@.skip(k as int)),
{
    let mut r = text::chars_of("/");
    r.extend_from_slice(mesh::strip_slashes(text::tail(p, k)));
    assert(r@ =~= "/"@ + mesh::bare_path(p@.skip(k as int)));
    r
}

/// A path without its query and prefixes.
pub fn strip_api_prefix(path: &[char]) -> (r: Vec<char>)
    ensures
        r@ == stripped(path@),
{
    let p = text::head(path, text::find_char(path, '?'));
    proof {
        reveal_strlit("/v1/api/index.php/");
        reveal_strlit("/v1/api/");
        reveal_strlit("/index.php/");
        reveal_strlit("/api/");
    }
    if starts_in(p, "/v1/api/index.php/") {
        behind(p, 18)
    } else if starts_in(p, "/v1/api/") {
        behind(p, 8)
    } else if starts_in(p, "/index.php/") {
        behind(p, 11)
    } else if starts_in(p, "/api/") {
        behind(p, 5)
    } else {
        let mut r: Vec<char> = Vec::new();
        r.extend_from_slice(p);
        assert(r@ =~= p@);
        r
    }
}

/// The path of a request about meshes: without prefixes, with its query.
pub open spec fn mesh_path(path: Seq<char>) -> Seq<char> {
    let q = mesh::query_part(path);
    let p = "/"@ + mesh::bare_path(stripped(path));
    if q.len() > 0 { p + "?"@ + q } else { p }
}

/// An answer as it goes out: status, media type and body.
pub struct Answer {
    pub status: u16,
    pub ctype: &'static str,
    pub body: Vec<u8>,
}

#[verifier::ext_equal]
pub struct AnswerModel {
    pub status: u16,
    pub ctype: Seq<char>,
    pub body: Seq<u8>,
}

impl View for Answer {
    type V = AnswerModel;

    open spec fn view(&self) -> AnswerModel {
        AnswerModel { status: self.status, ctype: self.ctype@, body: self.body@ }
    }
}

/// The bytes of a value's JSON text.
pub open spec fn json_bytes(j: JsonView) -> Seq<u8> {
    encode_utf8(json::rendered(j))
}

/// A JSON answer.
pub open spec fn json_answer(r: ReplyModel) -> AnswerModel {
    AnswerModel { status: r.status, ctype: "application/json"@, body: json_bytes(r.body) }
}

/// The boot configuration, sealed where the path asks for that. Where there is no blob of its
/// length that is an error of the broker.
pub open spec fn boot_answer(path: Seq<char>, cfg: JsonView, now_secs: u64) -> AnswerModel {
    let raw = json_bytes(cfg);
    if !text::ends(path, ".blob"@) {
        AnswerModel { status: 200, ctype: "application/json"@, body: raw }
    } else if codec::has_blob(raw.len()) {
        AnswerModel {
            status: 200,
            ctype: "application/octet-stream"@,
            body: codec::boot_blob(raw, now_secs),
        }
    } else {
        AnswerModel { status: 500, ctype: "application/octet-stream"@, body: Seq::empty() }
    }
}

/// A request that no service takes.
pub open spec fn serve_rest(
    a: AppModel,
    method: Seq<char>,
    path: Seq<char>,
    headers: Seq<(Seq<char>, Seq<char>)>,
    now: u64,
) -> AnswerModel {
    let secs = now / broker::SECOND;
    if method == "GET"@ && (path == "/"@ || path == "/health"@) {
        json_answer(
            ReplyModel {
                status: 200,
                body: JsonView::Object(
                    seq![("ok"@, JsonView::Bool(true)), ("title"@, JsonView::Text(a.title_id))],
                ),
            },
        )
    } else if method == "GET"@ && (asks_for_boot(path) || path.len() == 0) {
        boot_answer(path, boot_view(a, headers, secs as int), secs)
    } else if method == "POST"@ {
        json_answer(broker::ok_reply(broker::nothing()))
    } else {
        json_answer(broker::game_reply(broker::nothing()))
    }
}

/// What a request leads to. The game service is asked first, then the meshes, then the lobby
/// service.
pub open spec fn serve(
    a: AppModel,
    method: Seq<char>,
    path: Seq<char>,
    headers: Seq<(Seq<char>, Seq<char>)>,
    body: JsonView,
    stamp: Seq<char>,
    now: MomentView,
    n: NumeralsView,
) -> (AppModel, AnswerModel) {
    let p = stripped(path);
    let game = serve_game(a, p, headers, stamp);
    let about_meshes = text::begins(mesh::bare_path(p), "party/"@);
    let (a1, meshed) = mesh::serve(a, mesh_path(path), body, headers, stamp, now);
    let b = if about_meshes { a1 } else { a };
    let (c, lobby) = serve_playfab(b, p, body, headers, stamp, now.ticks, n);
    if game is Some {
        (a, json_answer(game->0))
    } else if about_meshes && meshed is Some {
        (a1, json_answer(meshed->0))
    } else if lobby is Some {
        (c, json_answer(lobby->0))
    } else {
        (c, serve_rest(c, method, p, headers, now.ticks))
    }
}

/// The bytes of a text.
pub fn text_bytes(s: &str) -> (r: Vec<u8>)
    ensures
        r@ == encode_utf8(s@),
{
    crate::bytes::copied(s.as_bytes())
}

/// A JSON answer.
fn answer(r: &Reply) -> (x: Answer)
    ensures
        x@ == json_answer(r@),
{
    Answer {
        status: r.status,
        ctype: "application/json",
        body: text_bytes(r.body.render().as_str()),
    }
}

/// The boot configuration as it goes out.
pub fn boot_reply(path: &[char], cfg: &Json, now_secs: u64) -> (x: Answer)
    ensures
        x@ == boot_answer(path@, cfg@, now_secs),
{
    let raw = text_bytes(cfg.render().as_str());
    if !ends_in(path, ".blob") {
        return Answer { status: 200, ctype: "application/json", body: raw };
    }
    if codec::can_be_blob(raw.len()) {
        let body = codec::encode_boot_blob(raw.as_slice(), now_secs);
        return Answer { status: 200, ctype: "application/octet-stream", body };
    }
    let none: Vec<u8> = Vec::new();
    assert(none@ =~= Seq::<u8>::empty());
    Answer { status: 500, ctype: "application/octet-stream", body: none }
}

impl App {
    /// Answers a request.
    pub fn dispatch(
        &mut self,
        method: &str,
        path: &str,
        headers: &Vec<(String, String)>,
        body: &Json,
        stamp: &str,
        now: &Moment,
        numerals: &Numerals,
    ) -> (x: Answer)
        requires
            old(self)@.wf(),
        ensures
            (final(self)@, x@) == serve(
                old(self)@,
                method@,
                path@,
                assoc::pairs(headers@),
                body@,
                stamp@,
                now@,
                numerals@,
            ),
            final(self)@.wf(),
    {
        let all = text::chars_of(path);
        let p = strip_api_prefix(all.as_slice());
        if let Some(r) = self.handle_cygames(p.as_slice(), headers, stamp) {
            return answer(&r);
        }
        let party = mesh::strip_slashes(p.as_slice());
        if starts_in(party, "party/") {
            let mut full = text::chars_of("/");
            full.extend_from_slice(party);
            let k: usize = text::find_char(all.as_slice(), '?');
            assert(full@ =~= "/"@ + mesh::bare_path(p@));
            if k < all.len() && all.len() - k > 1 {
                let ghost before = full@;
                let mark = text::chars_of("?");
                full.extend_from_slice(mark.as_slice());
                full.extend_from_slice(text::tail(all.as_slice(), k + 1));
                assert(full@ =~= before + "?"@ + mesh::query_part(path@));
            } else {
                assert(mesh::query_part(path@).len() == 0);
            }
            assert(full@ == mesh_path(path@));
            if let Some(r) = self.handle_party(full.as_slice(), body, headers, stamp, now) {
                return answer(&r);
            }
        }
        if let Some(r) = self.handle_playfab(
            p.as_slice(),
            body,
            headers,
            stamp,
            now.ticks,
            numerals,
        ) {
            return answer(&r);
        }
        let secs: u64 = now.ticks / broker::SECOND;
        if text::eq(method, "GET") && (text::is_text(p.as_slice(), "/") || text::is_text(
            p.as_slice(),
            "/health",
        )) {
            let data = pair("ok", Json::Bool(true), "title", json::string(self.title_id.as_str()));
            return answer(&Reply { status: 200, body: data });
        }
        if text::eq(method, "GET") && (is_boot_path(p.as_slice()) || p.len() == 0) {
            let cfg = self.boot_config(headers, secs);
            return boot_reply(p.as_slice(), &cfg, secs);
        }
        if text::eq(method, "POST") {
            return answer(&broker::playfab_ok(broker::empty_object()));
        }
        answer(&broker::cygames_ok(broker::empty_object()))
    }
}

// Settings

/// The limit of lobbies and whether it overrides what the game asks for.
#[verifier::ext_equal]
pub struct LobbyIni {
    pub max: int,
    pub override_game: bool,
}

impl LobbyIni {
    /// The settings after one entry.
    pub open spec fn set(self, e: EntryView) -> LobbyIni {
        let v = text::lowered(e.value);
        if e.section == "lobby"@ && e.key == "max_players"@ {
            match text::signed(e.value, i64::MIN as int, i64::MAX as int) {
                Some(n) => LobbyIni { max: n, ..self },
                None => self,
            }
        } else if e.section == "lobby"@ && e.key == "override_game_max"@ {
            LobbyIni { override_game: v == "true"@ || v == "1"@ || v == "yes"@, ..self }
        } else {
            self
        }
    }

    /// The settings after several entries.
    pub open spec fn set_all(self, entries: Seq<EntryView>) -> LobbyIni
        decreases entries.len(),
    {
        if entries.len() == 0 {
            self
        } else {
            self.set(entries[0]).set_all(entries.drop_first())
        }
    }
}

/// The settings of lobbies that the text of a `lan.ini` gives, where there is one.
pub open spec fn lobby_settings(file: Option<Seq<char>>) -> LobbyIni {
    let start = LobbyIni { max: broker::DEFAULT_MAX_PLAYERS as int, override_game: true };
    match file {
        Some(s) => start.set_all(ini::settings(s)),
        None => start,
    }
}

/// The settings of lobbies that the text of a `lan.ini` gives.
pub fn load_lobby_ini(file: Option<&str>) -> (r: (i64, bool))
    ensures
        ({
            let want = lobby_settings(
                match file {
                    Some(s) => Some(s@),
                    None => None,
                },
            );
            r.0 == broker::clamped(want.max) && r.1 == want.override_game
        }),
{
    let mut max: i64 = broker::DEFAULT_MAX_PLAYERS;
    let mut override_game = true;
    if let Some(s) = file {
        let entries = ini::read_settings(s);
        let ghost all = ini::settings(s@);
        let ghost want = lobby_settings(Some(s@));
        let mut i: usize = 0;
        assert(all.skip(0) =~= all);
        while i < entries.len()
            invariant
                i <= entries@.len(),
                ini::views(entries@) == all,
                (LobbyIni { max: max as int, override_game }).set_all(all.skip(i as int)) == want,
            decreases entries@.len() - i,
        {
            let e = &entries[i];
            assert(all.skip(i as int)[0] == e@);
            assert(all.skip(i as int).drop_first() =~= all.skip(i + 1));
            if text::is_text(e.section.as_slice(), "lobby") {
                if text::is_text(e.key.as_slice(), "max_players") {
                    if let Some(n) = text::parse_i64(e.value.as_slice()) {
                        max = n;
                    }
                } else if text::is_text(e.key.as_slice(), "override_game_max") {
                    let v = text::to_lowered(e.value.as_slice());
                    override_game = text::is_text(v.as_slice(), "true") || text::is_text(
                        v.as_slice(),
                        "1",
                    ) || text::is_text(v.as_slice(), "yes");
                }
            }
            i += 1;
        }
        assert(all.skip(i as int) =~= Seq::empty());
    }
    (broker::clamp_max_players(max), override_game)
}

}
