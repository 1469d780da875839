//! The bodies of the requests that the lobby client makes, and what it makes of the replies.
use crate::assoc;
use crate::lobby_json;
use crate::lobby_model;
use crate::lobby_model::{Entity, EntityView, Lobby, LobbyView};
use crate::scan;
use crate::text;
use vstd::prelude::*;

verus! {

/// 0x80004005 as the title sees it.
pub const E_FAIL: i32 = -2147467259;

/// 0x89236400 as the title sees it.
pub const E_PF_NOT_INITIALIZED: i32 = -1994169344;

/// 0x89236401 as the title sees it.
pub const E_PF_INSTANCE_ALREADY_EXISTS: i32 = -1994169343;

/// 0x89236404 as the title sees it.
pub const E_PF_ENTITY_KEY_MALFORMED: i32 = -1994169340;

/// 0x89236213 as the title sees it.
pub const E_PF_ENTITY_TOKEN_MALFORMED: i32 = -1994169837;

/// 0x89236205 as the title sees it.
pub const E_PF_OBJECT_STILL_PENDING: i32 = -1994169851;

/// 0x89236226 as the title sees it.
pub const E_PF_LOBBY_NOT_FOUND: i32 = -1994169818;

/// 0x89236227 as the title sees it.
pub const E_PF_LOBBY_NOT_JOINABLE: i32 = -1994169817;

/// 0x89236225 as the title sees it.
pub const E_PF_LOBBY_ALREADY_MEMBER: i32 = -1994169819;

/// 0x89236206 as the title sees it.
pub const E_PF_LOBBY_FULL: i32 = -1994169850;

/// 0x89236220 as the title sees it.
pub const E_PF_LOBBY_MEMBER_NOT_IN_LOBBY: i32 = -1994169824;

/// 0x89236222 as the title sees it.
pub const E_PF_LOBBY_EMPTY_UPDATE: i32 = -1994169822;

/// 0x89236223 as the title sees it.
pub const E_PF_LOBBY_UPDATE_AFTER_DISCONNECT: i32 = -1994169821;

/// 0x8923621e as the title sees it.
pub const E_PF_SERVICE_BAD_REQUEST: i32 = -1994169826;

/// 0x89236208 as the title sees it.
pub const E_PF_SERVICE_UNEXPECTED: i32 = -1994169848;

/// 0x89236221 as the title sees it.
pub const E_PF_SERVICE_MALFORMED_RESPONSE: i32 = -1994169823;

/// 0x89236409 as the title sees it.
pub const E_PF_SERVICE_4XX: i32 = -1994169335;

/// 0x8923640a as the title sees it.
pub const E_PF_SERVICE_5XX: i32 = -1994169334;

/// Whether a text stands in another.
pub open spec fn holds(s: Seq<char>, p: Seq<char>) -> bool {
    text::find_text(s, p) is Some
}

/// Whether a text stands in another.
fn contains(s: &[char], p: &str) -> (r: bool)
    ensures
        r == holds(s@, p@),
{
    text::find_in(s, text::chars_of(p).as_slice()).is_some()
}

/// The code for a refusal of the broker: by the error that it names, else by the status.
pub open spec fn error_code(status: u16, body: Seq<char>) -> i32 {
    if holds(body, "LobbyNotFound"@) {
        E_PF_LOBBY_NOT_FOUND
    } else if holds(body, "LobbyMemberLimitExceeded"@) || holds(
        body,
        "PartyMemberLimitExceeded"@,
    ) {
        E_PF_LOBBY_FULL
    } else if holds(body, "LobbyNotJoinable"@) {
        E_PF_LOBBY_NOT_JOINABLE
    } else if holds(body, "LobbyPlayerAlreadyJoined"@) || holds(body, "LobbyAlreadyMember"@) {
        E_PF_LOBBY_ALREADY_MEMBER
    } else if status == 400 {
        E_PF_SERVICE_BAD_REQUEST
    } else if status == 404 {
        E_PF_LOBBY_NOT_FOUND
    } else if status == 409 {
        E_PF_SERVICE_UNEXPECTED
    } else if 500 <= status < 600 {
        E_PF_SERVICE_5XX
    } else if 400 <= status < 500 {
        E_PF_SERVICE_4XX
    } else {
        E_PF_SERVICE_UNEXPECTED
    }
}

/// Finds the code for a refusal of the broker.
pub fn broker_error_code(status: u16, body: &str) -> (r: i32)
    ensures
        r == error_code(status, body@),
        r != 0,
{
    let b = text::chars_of(body);
    let s = b.as_slice();
    if contains(s, "LobbyNotFound") {
        E_PF_LOBBY_NOT_FOUND
    } else if contains(s, "LobbyMemberLimitExceeded") || contains(s, "PartyMemberLimitExceeded") {
        E_PF_LOBBY_FULL
    } else if contains(s, "LobbyNotJoinable") {
        E_PF_LOBBY_NOT_JOINABLE
    } else if contains(s, "LobbyPlayerAlreadyJoined") || contains(s, "LobbyAlreadyMember") {
        E_PF_LOBBY_ALREADY_MEMBER
    } else if status == 400 {
        E_PF_SERVICE_BAD_REQUEST
    } else if status == 404 {
        E_PF_LOBBY_NOT_FOUND
    } else if status == 409 {
        E_PF_SERVICE_UNEXPECTED
    } else if 500 <= status && status < 600 {
        E_PF_SERVICE_5XX
    } else if 400 <= status && status < 500 {
        E_PF_SERVICE_4XX
    } else {
        E_PF_SERVICE_UNEXPECTED
    }
}

/// The status and the body of a reply, where one came.
pub open spec fn reply(r: Option<(u16, String)>) -> Option<(u16, Seq<char>)> {
    match r {
        Some(p) => Some((p.0, p.1@)),
        None => None,
    }
}

/// The code of a request: 0 where it was granted.
pub open spec fn reply_code(r: Option<(u16, Seq<char>)>) -> i32 {
    match r {
        Some(p) => if p.0 == 200 { 0 } else { error_code(p.0, p.1) },
        None => E_PF_SERVICE_UNEXPECTED,
    }
}

/// The broker has granted a request.
pub open spec fn is_granted(r: Option<(u16, Seq<char>)>) -> bool {
    match r {
        Some(p) => p.0 == 200,
        None => false,
    }
}

/// Finds the code of a request.
pub fn code_of(r: &Option<(u16, String)>) -> (code: i32)
    ensures
        code == reply_code(reply(*r)),
        code == 0 <==> is_granted(reply(*r)),
{
    match r {
        Some(p) => if p.0 == 200 {
            0
        } else {
            broker_error_code(p.0, p.1.as_str())
        },
        None => E_PF_SERVICE_UNEXPECTED,
    }
}

/// A participant as it is written in a request.
pub open spec fn entity_text(id: Seq<char>, kind: Seq<char>) -> Seq<u8> {
    lobby_model::utf8("{\"Id\":\""@) + lobby_model::quoted(id) + lobby_model::utf8(
        "\",\"Type\":\""@,
    ) + lobby_model::quoted(kind) + lobby_model::utf8("\"}"@)
}

/// Writes a participant.
fn push_entity(out: &mut Vec<u8>, id: &str, kind: &str)
    ensures
        final(out)@ == old(out)@ + entity_text(id@, kind@),
{
    lobby_model::push_str(out, "{\"Id\":\"");
    lobby_model::push_quoted(out, id);
    lobby_model::push_str(out, "\",\"Type\":\"");
    lobby_model::push_quoted(out, kind);
    lobby_model::push_str(out, "\"}");
    assert(out@ =~= old(out)@ + entity_text(id@, kind@));
}

/// A number as it is written in a request.
pub open spec fn number_text(n: nat) -> Seq<u8> {
    lobby_model::utf8(text::decimal(n))
}

/// The body of a creation.
pub open spec fn create_text(
    max: u32,
    policy: u32,
    lobby_data: Seq<(Seq<char>, Seq<char>)>,
    search: Seq<(Seq<char>, Seq<char>)>,
    owner: Seq<char>,
    member: Seq<(Seq<char>, Seq<char>)>,
) -> Seq<u8> {
    lobby_model::utf8("{\"MaxPlayers\":"@) + number_text(max as nat) + lobby_model::utf8(
        ",\"OwnerMigrationPolicy\":"@,
    ) + number_text(policy as nat) + lobby_model::utf8(",\"LobbyData\":"@)
        + lobby_model::object_text(lobby_data) + lobby_model::utf8(",\"SearchData\":"@)
        + lobby_model::object_text(search) + (if owner.len() == 0 {
        Seq::empty()
    } else {
        lobby_model::utf8(",\"Owner\":"@) + entity_text(owner, "title_player_account"@)
    }) + lobby_model::utf8(",\"MemberData\":"@) + lobby_model::object_text(
        lobby_model::member_values(owner, member),
    ) + lobby_model::utf8("}"@)
}

/// Writes the body of a creation.
pub fn create_body(
    max: u32,
    policy: u32,
    lobby_data: &Vec<(String, String)>,
    search: &Vec<(String, String)>,
    owner: &str,
    member: &Vec<(String, String)>,
) -> (r: Vec<u8>)
    ensures
        r@ == create_text(
            max,
            policy,
            assoc::pairs(lobby_data@),
            assoc::pairs(search@),
            owner@,
            assoc::pairs(member@),
        ),
{
    let mut r: Vec<u8> = Vec::new();
    lobby_model::push_str(&mut r, "{\"MaxPlayers\":");
    lobby_model::push_str(&mut r, text::decimal_text(max as u64).as_str());
    lobby_model::push_str(&mut r, ",\"OwnerMigrationPolicy\":");
    lobby_model::push_str(&mut r, text::decimal_text(policy as u64).as_str());
    lobby_model::push_str(&mut r, ",\"LobbyData\":");
    lobby_model::push_object(&mut r, lobby_data);
    lobby_model::push_str(&mut r, ",\"SearchData\":");
    lobby_model::push_object(&mut r, search);
    let ghost start = r@;
    if !text::is_empty(owner) {
        lobby_model::push_str(&mut r, ",\"Owner\":");
        push_entity(&mut r, owner, "title_player_account");
    }
    assert(r@ =~= start + (if owner@.len() == 0 {
        Seq::empty()
    } else {
        lobby_model::utf8(",\"Owner\":"@) + entity_text(owner@, "title_player_account"@)
    }));
    lobby_model::push_str(&mut r, ",\"MemberData\":");
    let bag = lobby_model::member_bag(owner, member);
    lobby_model::push_object(&mut r, &bag.entries);
    lobby_model::push_str(&mut r, "}");
    assert(r@ =~= create_text(
        max,
        policy,
        assoc::pairs(lobby_data@),
        assoc::pairs(search@),
        owner@,
        assoc::pairs(member@),
    ));
    r
}

/// The body of a joining.
pub open spec fn join_text(
    connection: Seq<char>,
    joiner: Seq<char>,
    member: Seq<(Seq<char>, Seq<char>)>,
) -> Seq<u8> {
    lobby_model::utf8("{\"ConnectionString\":\""@) + lobby_model::quoted(connection)
        + lobby_model::utf8("\""@) + (if joiner.len() == 0 {
        Seq::empty()
    } else {
        lobby_model::utf8(",\"MemberEntity\":"@) + entity_text(joiner, "title_player_account"@)
            + lobby_model::utf8(",\"MemberData\":"@) + lobby_model::object_text(
            lobby_model::member_values(joiner, member),
        )
    }) + lobby_model::utf8("}"@)
}

/// Writes the body of a joining.
pub fn join_body(connection: &str, joiner: &str, member: &Vec<(String, String)>) -> (r: Vec<u8>)
    ensures
        r@ == join_text(connection@, joiner@, assoc::pairs(member@)),
{
    let mut r: Vec<u8> = Vec::new();
    lobby_model::push_str(&mut r, "{\"ConnectionString\":\"");
    lobby_model::push_quoted(&mut r, connection);
    lobby_model::push_str(&mut r, "\"");
    let ghost start = r@;
    if !text::is_empty(joiner) {
        lobby_model::push_str(&mut r, ",\"MemberEntity\":");
        push_entity(&mut r, joiner, "title_player_account");
        lobby_model::push_str(&mut r, ",\"MemberData\":");
        let bag = lobby_model::member_bag(joiner, member);
        lobby_model::push_object(&mut r, &bag.entries);
    }
    lobby_model::push_str(&mut r, "}");
    assert(r@ =~= join_text(connection@, joiner@, assoc::pairs(member@)));
    r
}

/// The body of a request for a lobby.
pub open spec fn get_text(id: Seq<char>) -> Seq<u8> {
    lobby_model::utf8("{\"LobbyId\":\""@) + lobby_model::utf8(id) + lobby_model::utf8("\"}"@)
}

/// Writes the body of a request for a lobby.
pub fn get_body(id: &str) -> (r: Vec<u8>)
    ensures
        r@ == get_text(id@),
{
    let mut r: Vec<u8> = Vec::new();
    lobby_model::push_str(&mut r, "{\"LobbyId\":\"");
    lobby_model::push_str(&mut r, id);
    lobby_model::push_str(&mut r, "\"}");
    assert(r@ =~= get_text(id@));
    r
}

/// The body of a look at a lobby that was found.
pub open spec fn probe_text(id: Seq<char>) -> Seq<u8> {
    lobby_model::utf8("{\"LobbyId\":\""@) + lobby_model::quoted(id) + lobby_model::utf8("\"}"@)
}

/// Writes the body of a look at a lobby that was found.
pub fn probe_body(id: &str) -> (r: Vec<u8>)
    ensures
        r@ == probe_text(id@),
{
    let mut r: Vec<u8> = Vec::new();
    lobby_model::push_str(&mut r, "{\"LobbyId\":\"");
    lobby_model::push_quoted(&mut r, id);
    lobby_model::push_str(&mut r, "\"}");
    assert(r@ =~= probe_text(id@));
    r
}

/// The body of a leave.
pub open spec fn leave_text(id: Seq<char>, entity: Seq<char>) -> Seq<u8> {
    if entity.len() == 0 {
        get_text(id)
    } else {
        lobby_model::utf8("{\"LobbyId\":\""@) + lobby_model::utf8(id) + lobby_model::utf8(
            "\",\"EntityId\":\""@,
        ) + lobby_model::quoted(entity) + lobby_model::utf8("\"}"@)
    }
}

/// Writes the body of a leave.
pub fn leave_body(id: &str, entity: &str) -> (r: Vec<u8>)
    ensures
        r@ == leave_text(id@, entity@),
{
    if text::is_empty(entity) {
        return get_body(id);
    }
    let mut r: Vec<u8> = Vec::new();
    lobby_model::push_str(&mut r, "{\"LobbyId\":\"");
    lobby_model::push_str(&mut r, id);
    lobby_model::push_str(&mut r, "\",\"EntityId\":\"");
    lobby_model::push_quoted(&mut r, entity);
    lobby_model::push_str(&mut r, "\"}");
    assert(r@ =~= leave_text(id@, entity@));
    r
}

/// What the title asks of friends in a search.
pub struct FriendsFilter {
    pub steam: bool,
    pub facebook: bool,
    pub xbox_token: String,
}

/// What the title searches for.
pub struct Search {
    pub filter: String,
    pub sort: String,
    pub count: Option<u32>,
    pub friends: Option<FriendsFilter>,
}

pub open spec fn bool_word(b: bool) -> Seq<char> {
    if b { "true"@ } else { "false"@ }
}

/// A text member of a search, which is left out where it is empty. `any` says whether another
/// stands before it.
pub open spec fn search_member(any: bool, name: Seq<char>, value: Seq<char>) -> Seq<u8> {
    if value.len() == 0 {
        Seq::empty()
    } else {
        (if any { lobby_model::utf8(","@) } else { Seq::empty() }) + lobby_model::utf8(name)
            + lobby_model::quoted(value) + lobby_model::utf8("\""@)
    }
}

/// The comma before a member, where another stands before it.
pub open spec fn comma(any: bool) -> Seq<u8> {
    if any { lobby_model::utf8(","@) } else { Seq::empty() }
}

/// How many results a search asks for.
pub open spec fn count_member(any: bool, count: Option<u32>) -> Seq<u8> {
    match count {
        Some(n) => comma(any) + lobby_model::utf8("\"ClientSearchResultCount\":"@) + number_text(
            n as nat,
        ),
        None => Seq::empty(),
    }
}

/// What a search asks of friends.
pub open spec fn friends_member(any: bool, friends: Option<FriendsFilter>) -> Seq<u8> {
    match friends {
        Some(f) => comma(any) + lobby_model::utf8(
            "\"FriendsFilter\":{\"IncludeSteamFriends\":"@,
        ) + lobby_model::utf8(bool_word(f.steam)) + lobby_model::utf8(
            ",\"IncludeFacebookFriends\":"@,
        ) + lobby_model::utf8(bool_word(f.facebook)) + lobby_model::utf8(
            ",\"IncludeXboxFriendsToken\":\""@,
        ) + lobby_model::quoted(f.xbox_token@) + lobby_model::utf8("\"}"@),
        None => Seq::empty(),
    }
}

/// The body of a search: the filter and the order as the title gave them.
pub open spec fn find_text(entity: Seq<char>, s: Search) -> Seq<u8> {
    let a = entity.len() > 0;
    let b = a || s.filter@.len() > 0;
    let c = b || s.sort@.len() > 0;
    let d = c || s.count is Some;
    lobby_model::utf8("{"@) + search_member(false, "\"EntityId\":\""@, entity) + search_member(
        a,
        "\"Filter\":\""@,
        s.filter@,
    ) + search_member(b, "\"Sort\":\""@, s.sort@) + count_member(c, s.count) + friends_member(
        d,
        s.friends,
    ) + lobby_model::utf8("}"@)
}

/// Writes a text member of a search.
fn push_search_member(out: &mut Vec<u8>, any: bool, name: &str, value: &str) -> (r: bool)
    ensures
        final(out)@ == old(out)@ + search_member(any, name@, value@),
        r == (any || value@.len() > 0),
{
    if text::is_empty(value) {
        assert(out@ =~= old(out)@ + search_member(any, name@, value@));
        return any;
    }
    if any {
        lobby_model::push_str(out, ",");
    }
    lobby_model::push_str(out, name);
    lobby_model::push_quoted(out, value);
    lobby_model::push_str(out, "\"");
    assert(out@ =~= old(out)@ + search_member(any, name@, value@));
    true
}

fn word_of(b: bool) -> (r: &'static str)
    ensures
        r@ == bool_word(b),
{
    if b {
        "true"
    } else {
        "false"
    }
}

fn push_comma(out: &mut Vec<u8>, any: bool)
    ensures
        final(out)@ == old(out)@ + comma(any),
{
    if any {
        lobby_model::push_str(out, ",");
    } else {
        assert(out@ =~= old(out)@ + comma(any));
    }
}

/// Writes how many results a search asks for.
fn push_count(out: &mut Vec<u8>, any: bool, count: Option<u32>) -> (r: bool)
    ensures
        final(out)@ == old(out)@ + count_member(any, count),
        r == (any || count is Some),
{
    match count {
        Some(n) => {
            push_comma(out, any);
            lobby_model::push_str(out, "\"ClientSearchResultCount\":");
            lobby_model::push_str(out, text::decimal_text(n as u64).as_str());
            assert(out@ =~= old(out)@ + count_member(any, count));
            true
        },
        None => {
            assert(out@ =~= old(out)@ + count_member(any, count));
            any
        },
    }
}

/// Writes bytes.
fn push_bytes(out: &mut Vec<u8>, b: &Vec<u8>)
    ensures
        final(out)@ == old(out)@ + b@,
{
    let ghost before = out@;
    out.extend_from_slice(b.as_slice());
    assert(out@ =~= before + b@);
}

/// What a search asks of friends.
fn friends_bytes(any: bool, friends: &Option<FriendsFilter>) -> (r: Vec<u8>)
    ensures
        r@ == friends_member(any, *friends),
{
    let mut out: Vec<u8> = Vec::new();
    if let Some(f) = friends {
        push_comma(&mut out, any);
        assert(out@ =~= comma(any));
        lobby_model::push_str(&mut out, "\"FriendsFilter\":{\"IncludeSteamFriends\":");
        lobby_model::push_str(&mut out, word_of(f.steam));
        lobby_model::push_str(&mut out, ",\"IncludeFacebookFriends\":");
        lobby_model::push_str(&mut out, word_of(f.facebook));
        lobby_model::push_str(&mut out, ",\"IncludeXboxFriendsToken\":\"");
        lobby_model::push_quoted(&mut out, f.xbox_token.as_str());
        lobby_model::push_str(&mut out, "\"}");
    }
    out
}

/// Writes the body of a search.
pub fn find_body(entity: &str, s: &Search) -> (r: Vec<u8>)
    ensures
        r@ == find_text(entity@, *s),
{
    let mut r: Vec<u8> = Vec::new();
    lobby_model::push_str(&mut r, "{");
    assert(r@ =~= lobby_model::utf8("{"@));
    let a = push_search_member(&mut r, false, "\"EntityId\":\"", entity);
    let b = push_search_member(&mut r, a, "\"Filter\":\"", s.filter.as_str());
    let c = push_search_member(&mut r, b, "\"Sort\":\"", s.sort.as_str());
    let d = push_count(&mut r, c, s.count);
    push_bytes(&mut r, &friends_bytes(d, &s.friends));
    lobby_model::push_str(&mut r, "}");
    r
}

/// What the title changes of a lobby itself.
pub struct Scalars {
    pub owner: Option<Entity>,
    pub max_players: Option<u32>,
    pub access_policy: Option<u32>,
    pub membership_lock: Option<i32>,
}

/// What an update changes beside the values that the lobby has.
pub struct Update {
    pub search_delete: Vec<String>,
    pub lobby_delete: Vec<String>,
    /// The participant whose values change, where some do.
    pub member: Option<String>,
    pub member_delete: Vec<String>,
    pub scalars: Scalars,
}

#[verifier::ext_equal]
pub struct UpdateView {
    pub search_delete: Seq<Seq<char>>,
    pub lobby_delete: Seq<Seq<char>>,
    pub member: Option<Seq<char>>,
    pub member_delete: Seq<Seq<char>>,
    pub owner: Option<EntityView>,
    pub max_players: Option<u32>,
    pub access_policy: Option<u32>,
    pub membership_lock: Option<i32>,
}

impl View for Update {
    type V = UpdateView;

    open spec fn view(&self) -> UpdateView {
        UpdateView {
            search_delete: text::views(self.search_delete@),
            lobby_delete: text::views(self.lobby_delete@),
            member: scan::opt_text(self.member),
            member_delete: text::views(self.member_delete@),
            owner: lobby_model::opt_entity(self.scalars.owner),
            max_players: self.scalars.max_players,
            access_policy: self.scalars.access_policy,
            membership_lock: self.scalars.membership_lock,
        }
    }
}

/// Names as a list.
pub open spec fn names_text(v: Seq<Seq<char>>) -> Seq<u8>
    decreases v.len(),
{
    if v.len() == 0 {
        Seq::empty()
    } else {
        names_text(v.drop_last()) + comma(v.len() > 1) + lobby_model::utf8("\""@)
            + lobby_model::quoted(v.last()) + lobby_model::utf8("\""@)
    }
}

/// A list of names to delete, which is left out where it is empty.
pub open spec fn delete_text(name: Seq<char>, v: Seq<Seq<char>>) -> Seq<u8> {
    if v.len() == 0 {
        Seq::empty()
    } else {
        lobby_model::utf8(name) + names_text(v) + lobby_model::utf8("]"@)
    }
}

fn names_bytes(v: &Vec<String>) -> (r: Vec<u8>)
    ensures
        r@ == names_text(text::views(v@)),
{
    let ghost all = text::views(v@);
    let mut r: Vec<u8> = Vec::new();
    let mut i: usize = 0;
    assert(all.take(0) =~= Seq::empty());
    while i < v.len()
        invariant
            i <= v@.len(),
            all == text::views(v@),
            r@ == names_text(all.take(i as int)),
        decreases v@.len() - i,
    {
        assert(all.take(i + 1).drop_last() =~= all.take(i as int));
        assert(all.take(i + 1).last() == v@[i as int]@);
        push_comma(&mut r, i > 0);
        lobby_model::push_str(&mut r, "\"");
        lobby_model::push_quoted(&mut r, v[i].as_str());
        lobby_model::push_str(&mut r, "\"");
        i += 1;
    }
    assert(all.take(i as int) =~= all);
    r
}

fn delete_bytes(name: &str, v: &Vec<String>) -> (r: Vec<u8>)
    ensures
        r@ == delete_text(name@, text::views(v@)),
{
    let mut r: Vec<u8> = Vec::new();
    if v.len() > 0 {
        lobby_model::push_str(&mut r, name);
        assert(r@ =~= lobby_model::utf8(name@));
        push_bytes(&mut r, &names_bytes(v));
        lobby_model::push_str(&mut r, "]");
    }
    assert(text::views(v@).len() == v@.len());
    r
}

/// The new owner in an update.
pub open spec fn owner_text(owner: Option<EntityView>) -> Seq<u8> {
    match owner {
        Some(e) => lobby_model::utf8(",\"Owner\":"@) + entity_text(e.id, e.kind),
        None => Seq::empty(),
    }
}

/// The new limit in an update.
pub open spec fn max_text(n: Option<u32>) -> Seq<u8> {
    match n {
        Some(n) => lobby_model::utf8(",\"MaxPlayers\":"@) + number_text(n as nat),
        None => Seq::empty(),
    }
}

/// The new access policy in an update.
pub open spec fn access_text(n: Option<u32>) -> Seq<u8> {
    match n {
        Some(n) => lobby_model::utf8(",\"AccessPolicy\":\""@) + lobby_model::utf8(
            lobby_model::policy_word(n),
        ) + lobby_model::utf8("\""@),
        None => Seq::empty(),
    }
}

/// The new lock in an update.
pub open spec fn lock_text(n: Option<i32>) -> Seq<u8> {
    match n {
        Some(n) => lobby_model::utf8(",\"MembershipLock\":\""@) + lobby_model::utf8(
            if n == 1 { "Locked"@ } else { "Unlocked"@ },
        ) + lobby_model::utf8("\""@),
        None => Seq::empty(),
    }
}

/// The participant whose values go with an update: the one that it names, else the local one.
pub open spec fn update_target(member: Option<Seq<char>>, local: Seq<char>) -> Option<Seq<char>> {
    match member {
        Some(m) => Some(m),
        None => if local.len() > 0 { Some(local) } else { None },
    }
}

/// The values of a participant in an update. The participant is named where the update names it.
pub open spec fn target_text(l: LobbyView, member: Option<Seq<char>>, local: Seq<char>) -> Seq<u8> {
    match update_target(member, local) {
        Some(id) => match assoc::lookup(l.member_props, id) {
            Some(m) => lobby_model::utf8(",\"MemberData\":"@) + lobby_model::object_text(
                lobby_model::member_values(id, m),
            ) + (match member {
                Some(_) => lobby_model::utf8(",\"MemberEntity\":"@) + entity_text(
                    id,
                    "title_player_account"@,
                ),
                None => Seq::empty(),
            }),
            None => Seq::empty(),
        },
        None => Seq::empty(),
    }
}

/// The body of an update: the values that the lobby has, and what else changes.
pub open spec fn update_text(l: LobbyView, u: UpdateView, local: Seq<char>) -> Seq<u8> {
    lobby_model::utf8("{\"LobbyId\":\""@) + lobby_model::utf8(l.id) + lobby_model::utf8(
        "\",\"LobbyData\":"@,
    ) + lobby_model::object_text(l.props) + lobby_model::utf8(",\"SearchData\":"@)
        + lobby_model::object_text(l.search) + target_text(l, u.member, local) + delete_text(
        ",\"SearchDataToDelete\":["@,
        u.search_delete,
    ) + delete_text(",\"LobbyDataToDelete\":["@, u.lobby_delete) + owner_text(u.owner) + max_text(
        u.max_players,
    ) + access_text(u.access_policy) + lock_text(u.membership_lock) + (match u.member {
        Some(_) => delete_text(",\"MemberDataToDelete\":["@, u.member_delete),
        None => Seq::empty(),
    }) + lobby_model::utf8("}"@)
}

fn scalar_bytes(s: &Scalars) -> (r: (Vec<u8>, Vec<u8>, Vec<u8>, Vec<u8>))
    ensures
        r.0@ == owner_text(lobby_model::opt_entity(s.owner)),
        r.1@ == max_text(s.max_players),
        r.2@ == access_text(s.access_policy),
        r.3@ == lock_text(s.membership_lock),
{
    let mut owner: Vec<u8> = Vec::new();
    if let Some(e) = &s.owner {
        lobby_model::push_str(&mut owner, ",\"Owner\":");
        assert(owner@ =~= lobby_model::utf8(",\"Owner\":"@));
        push_entity(&mut owner, e.id.as_str(), e.kind.as_str());
    }
    let mut max: Vec<u8> = Vec::new();
    if let Some(n) = s.max_players {
        lobby_model::push_str(&mut max, ",\"MaxPlayers\":");
        assert(max@ =~= lobby_model::utf8(",\"MaxPlayers\":"@));
        lobby_model::push_str(&mut max, text::decimal_text(n as u64).as_str());
    }
    let mut access: Vec<u8> = Vec::new();
    if let Some(n) = s.access_policy {
        lobby_model::push_str(&mut access, ",\"AccessPolicy\":\"");
        assert(access@ =~= lobby_model::utf8(",\"AccessPolicy\":\""@));
        lobby_model::push_str(&mut access, lobby_model::access_policy_name(n));
        lobby_model::push_str(&mut access, "\"");
    }
    let mut lock: Vec<u8> = Vec::new();
    if let Some(n) = s.membership_lock {
        lobby_model::push_str(&mut lock, ",\"MembershipLock\":\"");
        assert(lock@ =~= lobby_model::utf8(",\"MembershipLock\":\""@));
        lobby_model::push_str(
            &mut lock,
            if n == 1 {
                "Locked"
            } else {
                "Unlocked"
            },
        );
        lobby_model::push_str(&mut lock, "\"");
    }
    (owner, max, access, lock)
}

fn target_bytes(l: &Lobby, member: &Option<String>, local: &str) -> (r: Vec<u8>)
    ensures
        r@ == target_text(l@, scan::opt_text(*member), local@),
{
    let mut r: Vec<u8> = Vec::new();
    let id = match member {
        Some(m) => m.clone(),
        None => {
            if text::is_empty(local) {
                return r;
            }
            local.to_owned()
        },
    };
    if let Some(m) = assoc::get(&l.member_props, id.as_str()) {
        lobby_model::push_str(&mut r, ",\"MemberData\":");
        assert(r@ =~= lobby_model::utf8(",\"MemberData\":"@));
        let bag = lobby_model::member_bag(id.as_str(), &m.entries);
        lobby_model::push_object(&mut r, &bag.entries);
        let ghost start = r@;
        if member.is_some() {
            let mut e: Vec<u8> = Vec::new();
            lobby_model::push_str(&mut e, ",\"MemberEntity\":");
            assert(e@ =~= lobby_model::utf8(",\"MemberEntity\":"@));
            push_entity(&mut e, id.as_str(), "title_player_account");
            push_bytes(&mut r, &e);
        } else {
            assert(r@ =~= start + Seq::empty());
        }
    }
    r
}

/// Writes the body of an update.
pub fn update_body(l: &Lobby, u: &Update, local: &str) -> (r: Vec<u8>)
    ensures
        r@ == update_text(l@, u@, local@),
{
    let mut r: Vec<u8> = Vec::new();
    lobby_model::push_str(&mut r, "{\"LobbyId\":\"");
    assert(r@ =~= lobby_model::utf8("{\"LobbyId\":\""@));
    lobby_model::push_str(&mut r, l.id.as_str());
    lobby_model::push_str(&mut r, "\",\"LobbyData\":");
    lobby_model::push_object(&mut r, &l.props.entries);
    lobby_model::push_str(&mut r, ",\"SearchData\":");
    lobby_model::push_object(&mut r, &l.search.entries);
    push_bytes(&mut r, &target_bytes(l, &u.member, local));
    push_bytes(&mut r, &delete_bytes(",\"SearchDataToDelete\":[", &u.search_delete));
    push_bytes(&mut r, &delete_bytes(",\"LobbyDataToDelete\":[", &u.lobby_delete));
    let (owner, max, access, lock) = scalar_bytes(&u.scalars);
    push_bytes(&mut r, &owner);
    push_bytes(&mut r, &max);
    push_bytes(&mut r, &access);
    push_bytes(&mut r, &lock);
    let gone = if u.member.is_some() {
        delete_bytes(",\"MemberDataToDelete\":[", &u.member_delete)
    } else {
        Vec::new()
    };
    push_bytes(&mut r, &gone);
    lobby_model::push_str(&mut r, "}");
    r
}

/// A record of a network that was made, and not only a place for one.
pub open spec fn is_network_line(s: Seq<char>) -> bool {
    text::begins(s, "LAN1."@) && s.len() > "LAN1."@.len()
}

/// Whether a text is the record of a network.
pub fn is_real_network_descriptor(s: &str) -> (r: bool)
    ensures
        r == is_network_line(s@),
{
    let v = text::chars_of(s);
    let p = text::chars_of("LAN1.");
    text::starts_with(v.as_slice(), p.as_slice()) && v.len() > p.len()
}

/// The identifier of the network in a record; a short one is none.
pub open spec fn network_id_in(s: Seq<char>) -> Option<Seq<char>> {
    if text::begins(s, "LAN1."@) {
        let r = s.skip("LAN1."@.len() as int);
        let id = r.take(text::find(r, '.'));
        if lobby_model::utf8(id).len() >= 8 { Some(id) } else { None }
    } else {
        None
    }
}

/// Reads the identifier of the network in a record.
pub fn lan1_network_id(s: &str) -> (r: Option<String>)
    ensures
        scan::opt_text(r) == network_id_in(s@),
{
    let v = text::chars_of(s);
    let p = text::chars_of("LAN1.");
    if !text::starts_with(v.as_slice(), p.as_slice()) {
        return None;
    }
    let rest = text::tail(v.as_slice(), p.len());
    let id = text::text_of(text::head(rest, text::find_char(rest, '.')));
    if id.as_str().as_bytes().len() >= 8 {
        Some(id)
    } else {
        None
    }
}

/// A guest can join: the host has put a network and an invitation into the lobby.
pub open spec fn is_ready(l: LobbyView) -> bool {
    &&& assoc::lookup(l.props, "network_descriptor"@) is Some
    &&& is_network_line(assoc::lookup(l.props, "network_descriptor"@)->0)
    &&& assoc::lookup(l.props, "invitation_identifier"@) is Some
    &&& assoc::lookup(l.props, "invitation_identifier"@)->0.len() > 0
    &&& assoc::lookup(l.props, "invitation_identifier"@)->0 != "dummy"@
}

/// Whether a guest can join.
pub fn lobby_ready_for_guest(l: &Lobby) -> (r: bool)
    ensures
        r == is_ready(l@),
{
    match assoc::get(&l.props.entries, "network_descriptor") {
        Some(d) => if !is_real_network_descriptor(d.as_str()) {
            return false;
        },
        None => {
            return false;
        },
    }
    match assoc::get(&l.props.entries, "invitation_identifier") {
        Some(i) => !text::is_empty(i.as_str()) && !text::eq(i.as_str(), "dummy"),
        None => false,
    }
}

/// What is to be done about a lobby that was found.
pub enum Probe {
    /// It is offered to the title.
    Keep,
    /// It is not.
    Drop,
    /// It is offered if its owner takes part in its network.
    AskPeers { network: String, owner: String },
}

#[verifier::ext_equal]
pub enum ProbeView {
    Keep,
    Drop,
    AskPeers { network: Seq<char>, owner: Seq<char> },
}

impl View for Probe {
    type V = ProbeView;

    open spec fn view(&self) -> ProbeView {
        match *self {
            Probe::Keep => ProbeView::Keep,
            Probe::Drop => ProbeView::Drop,
            Probe::AskPeers { network, owner } => ProbeView::AskPeers {
                network: network@,
                owner: owner@,
            },
        }
    }
}

/// What is to be done about a lobby that was found, after a look at it. One that cannot be looked
/// at is offered, so that a moment's silence hides none; one that the broker refuses, or that has
/// no network, is not.
pub open spec fn probed(r: Option<(u16, Seq<char>)>) -> ProbeView {
    match r {
        Some(p) => if p.0 != 200 {
            ProbeView::Drop
        } else {
            let b = lobby_model::utf8(p.1);
            let d = lobby_model::value_or_empty(
                lobby_json::object_field(b, "LobbyData"@),
                "network_descriptor"@,
            );
            let owner = lobby_model::value_or_empty(
                lobby_json::object_field(b, "Owner"@),
                "Id"@,
            );
            match network_id_in(d) {
                Some(n) => if owner.len() == 0 {
                    ProbeView::Drop
                } else {
                    ProbeView::AskPeers { network: n, owner }
                },
                None => ProbeView::Drop,
            }
        },
        None => ProbeView::Keep,
    }
}

fn member_or_empty(m: &Vec<(String, String)>, key: &str) -> (r: String)
    ensures
        r@ == lobby_model::value_or_empty(assoc::pairs(m@), key@),
{
    match assoc::get(m, key) {
        Some(v) => v.clone(),
        None => {
            let r = String::new();
            assert(r@ =~= Seq::empty());
            r
        },
    }
}

/// Decides about a lobby that was found, after a look at it.
pub fn probe_row(r: &Option<(u16, String)>) -> (p: Probe)
    ensures
        p@ == probed(reply(*r)),
{
    match r {
        None => Probe::Keep,
        Some(x) => {
            if x.0 != 200 {
                return Probe::Drop;
            }
            let b = x.1.as_str().as_bytes();
            let data = lobby_json::json_obj(b, "LobbyData");
            let line = member_or_empty(&data, "network_descriptor");
            let owners = lobby_json::json_obj(b, "Owner");
            let owner = member_or_empty(&owners, "Id");
            match lan1_network_id(line.as_str()) {
                Some(network) => if text::is_empty(owner.as_str()) {
                    Probe::Drop
                } else {
                    Probe::AskPeers { network, owner }
                },
                None => Probe::Drop,
            }
        },
    }
}

/// A lobby that was found is offered unless the broker tells that its owner does not take part.
pub open spec fn owner_takes_part(peers: Option<Seq<char>>, owner: Seq<char>) -> bool {
    match peers {
        Some(t) => holds(t, "\"entity_id\":\""@ + owner + "\""@),
        None => true,
    }
}

/// Decides about a lobby that was found, after a look at the peers of its network.
pub fn keep_row(peers: &Option<String>, owner: &str) -> (r: bool)
    ensures
        r == owner_takes_part(scan::opt_text(*peers), owner@),
{
    match peers {
        Some(t) => {
            let mut p = String::new();
            p.append("\"entity_id\":\"");
            p.append(owner);
            p.append("\"");
            assert(p@ =~= "\"entity_id\":\""@ + owner@ + "\""@);
            contains(text::chars_of(t.as_str()).as_slice(), p.as_str())
        },
        None => true,
    }
}

}
