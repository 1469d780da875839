//! The lobby broker's state and the rules by which it answers: accounts, lobbies and party meshes.
//!
//! Time is counted from the Unix epoch and handed in, as are the stamps from which fresh names are
//! made.
use crate::assoc;
use crate::codec;
use crate::json;
use crate::json::{Json, JsonView, Scalar, ScalarView};
use crate::lobby_filter;
use crate::text;
use vstd::prelude::*;
use vstd::utf8::encode_utf8;

verus! {

/// The fewest players that a lobby can be made for.
pub const MIN_PLAYERS: i64 = 2;

/// The most players that a lobby can be made for.
pub const MAX_PLAYERS_CEILING: i64 = 32;

/// The most players of a lobby where nothing else is configured.
pub const DEFAULT_MAX_PLAYERS: i64 = 8;

/// A second, in the unit that the broker measures time in: 2^-32 seconds.
pub const SECOND: u64 = 0x1_0000_0000;

/// How long a party member is live after it was last heard of: thirty seconds.
pub const PARTY_SEEN_TTL: u64 = 0x1e_0000_0000;

/// A time that the broker's clock has shown, in seconds since the epoch. The clock shows doubles,
/// which the caller reads: `ticks` is the double as a multiple of 2^-32, of which every double from
/// the second week on is one, and `text` its decimal text.
#[derive(Debug)]
pub struct Moment {
    pub ticks: u64,
    pub text: String,
}

#[verifier::ext_equal]
pub struct MomentView {
    pub ticks: u64,
    pub text: Seq<char>,
}

impl View for Moment {
    type V = MomentView;

    open spec fn view(&self) -> MomentView {
        MomentView { ticks: self.ticks, text: self.text@ }
    }
}

impl Moment {
    /// The same time.
    pub fn copy(&self) -> (r: Moment)
        ensures
            r@ == self@,
    {
        Moment { ticks: self.ticks, text: self.text.clone() }
    }
}

/// An account that has logged in.
#[derive(Debug)]
pub struct Player {
    pub playfab_id: String,
    pub entity_id: String,
    pub entity_type: String,
    pub entity_token: String,
    pub session_ticket: String,
    pub token_expiration: String,
}

#[verifier::ext_equal]
pub struct PlayerModel {
    pub playfab_id: Seq<char>,
    pub entity_id: Seq<char>,
    pub entity_type: Seq<char>,
    pub entity_token: Seq<char>,
    pub session_ticket: Seq<char>,
    pub token_expiration: Seq<char>,
}

impl View for Player {
    type V = PlayerModel;

    open spec fn view(&self) -> PlayerModel {
        PlayerModel {
            playfab_id: self.playfab_id@,
            entity_id: self.entity_id@,
            entity_type: self.entity_type@,
            entity_token: self.entity_token@,
            session_ticket: self.session_ticket@,
            token_expiration: self.token_expiration@,
        }
    }
}

impl Player {
    /// A copy of the account.
    pub fn copy(&self) -> (r: Player)
        ensures
            r@ == self@,
    {
        Player {
            playfab_id: self.playfab_id.clone(),
            entity_id: self.entity_id.clone(),
            entity_type: self.entity_type.clone(),
            entity_token: self.entity_token.clone(),
            session_ticket: self.session_ticket.clone(),
            token_expiration: self.token_expiration.clone(),
        }
    }
}

/// A lobby. Who owns it and who is in it is held as the clients sent it.
#[derive(Debug)]
pub struct Lobby {
    pub id: String,
    pub connection: String,
    pub owner: Json,
    /// What happens when the owner leaves: 0 none, 1 automatic, 2 manual, 3 server. Fixed when the
    /// lobby is created.
    pub owner_migration_policy: i64,
    pub max_players: i64,
    pub lobby_data: Vec<(String, Json)>,
    pub search_data: Vec<(String, Json)>,
    pub access_policy: String,
    pub membership_lock: String,
    pub members: Vec<Json>,
    pub created: u64,
}

#[verifier::ext_equal]
pub struct LobbyState {
    pub id: Seq<char>,
    pub connection: Seq<char>,
    pub owner: JsonView,
    pub owner_migration_policy: i64,
    pub max_players: i64,
    pub lobby_data: Seq<(Seq<char>, JsonView)>,
    pub search_data: Seq<(Seq<char>, JsonView)>,
    pub access_policy: Seq<char>,
    pub membership_lock: Seq<char>,
    pub members: Seq<JsonView>,
    pub created: u64,
}

impl View for Lobby {
    type V = LobbyState;

    open spec fn view(&self) -> LobbyState {
        LobbyState {
            id: self.id@,
            connection: self.connection@,
            owner: self.owner@,
            owner_migration_policy: self.owner_migration_policy,
            max_players: self.max_players,
            lobby_data: json::members(self.lobby_data@),
            search_data: json::members(self.search_data@),
            access_policy: self.access_policy@,
            membership_lock: self.membership_lock@,
            members: json::elements(self.members@),
            created: self.created,
        }
    }
}

/// `n` within the range that lobbies are made for.
pub open spec fn clamped(n: int) -> i64 {
    if n < MIN_PLAYERS {
        MIN_PLAYERS
    } else if n > MAX_PLAYERS_CEILING {
        MAX_PLAYERS_CEILING
    } else {
        n as i64
    }
}

pub fn clamp_max_players(n: i64) -> (r: i64)
    ensures
        r == clamped(n as int),
        MIN_PLAYERS <= r <= MAX_PLAYERS_CEILING,
{
    if n < MIN_PLAYERS {
        MIN_PLAYERS
    } else if n > MAX_PLAYERS_CEILING {
        MAX_PLAYERS_CEILING
    } else {
        n
    }
}

// Members

/// Digits, and at least one.
pub open spec fn is_account_id(s: Seq<char>) -> bool {
    text::is_number(s)
}

/// A number for some bytes: each is mixed in and the whole multiplied, within 64 bits.
pub open spec fn account_number(s: Seq<u8>) -> u64
    decreases s.len(),
{
    if s.len() == 0 {
        2166136261
    } else {
        (account_number(s.drop_last()) ^ (s.last() as u64)).wrapping_mul(16777619)
    }
}

/// The decimal account of an entity: its name where that is one, else a number made from it.
pub open spec fn account_id(entity_id: Seq<char>) -> Seq<char> {
    if is_account_id(entity_id) {
        entity_id
    } else {
        let n = account_number(encode_utf8(entity_id));
        text::decimal(if n == 0 { 1 } else { n as nat })
    }
}

/// Whether a text is a row of digits.
pub fn all_digits(s: &str) -> (r: bool)
    ensures
        r == is_account_id(s@),
{
    let v = text::chars_of(s);
    let mut i: usize = 0;
    while i < v.len()
        invariant
            i <= v@.len(),
            v@ == s@,
            forall|j: int| 0 <= j < i ==> text::is_digit(#[trigger] v@[j]),
        decreases v@.len() - i,
    {
        if !text::digit(v[i]) {
            assert(!text::is_digit(s@[i as int]));
            return false;
        }
        i += 1;
    }
    v.len() > 0
}

/// The decimal account of an entity.
pub fn decimal_account_id(entity_id: &str) -> (r: String)
    ensures
        r@ == account_id(entity_id@),
{
    if all_digits(entity_id) {
        return entity_id.to_owned();
    }
    let b = entity_id.as_bytes();
    let mut n: u64 = 2166136261;
    let mut i: usize = 0;
    assert(b@.take(0) =~= Seq::empty());
    while i < b.len()
        invariant
            i <= b@.len(),
            n == account_number(b@.take(i as int)),
        decreases b@.len() - i,
    {
        n = (n ^ (b[i] as u64)).wrapping_mul(16777619);
        i += 1;
        assert(b@.take(i as int).drop_last() =~= b@.take(i - 1));
    }
    assert(b@.take(i as int) =~= b@);
    if n == 0 {
        n = 1;
    }
    text::decimal_text(n)
}

/// The entity that a member entry is about, empty where it names none.
pub open spec fn member_id_of(m: JsonView) -> Seq<char> {
    match m.text_field("Id"@) {
        Some(id) => id,
        None => match m.field("MemberEntity"@) {
            Some(e) => match e.text_field("Id"@) {
                Some(id) => id,
                None => Seq::empty(),
            },
            None => Seq::empty(),
        },
    }
}

/// The entity that a member entry is about.
pub fn member_id(m: &Json) -> (r: String)
    ensures
        r@ == member_id_of(m@),
{
    if let Some(id) = m.text_field("Id") {
        return id.to_owned();
    }
    if let Some(e) = m.field("MemberEntity") {
        if let Some(id) = e.text_field("Id") {
            return id.to_owned();
        }
    }
    String::new()
}

/// An object in which a plain value under a name is turned into its text.
pub open spec fn with_text_member(o: Seq<(Seq<char>, JsonView)>, key: Seq<char>) -> Seq<
    (Seq<char>, JsonView),
> {
    match assoc::lookup(o, key) {
        Some(j) => if !(j is Text) && lobby_filter::as_text(j) is Some {
            assoc::with(o, key, JsonView::Text(lobby_filter::as_text(j)->0))
        } else {
            o
        },
        None => o,
    }
}

/// The text under a name of an object, empty where there is none.
pub open spec fn text_or_empty(o: Seq<(Seq<char>, JsonView)>, key: Seq<char>) -> Seq<char> {
    match assoc::lookup(o, key) {
        Some(JsonView::Text(t)) => t,
        _ => Seq::empty(),
    }
}

/// The data of a member as clients need it: a platform, a decimal account and a user name.
pub open spec fn filled(o: Seq<(Seq<char>, JsonView)>, eid: Seq<char>) -> Seq<
    (Seq<char>, JsonView),
> {
    let a = with_text_member(o, "member_platform"@);
    let b = with_text_member(a, "member_platform_account_id"@);
    let c = with_text_member(b, "member_platform_user_name"@);
    let platform = text_or_empty(c, "member_platform"@);
    let d = if platform.len() == 0 || platform == "1"@ {
        assoc::with(c, "member_platform"@, JsonView::Text("Steam"@))
    } else {
        c
    };
    let e = if !is_account_id(text_or_empty(d, "member_platform_account_id"@)) {
        assoc::with(d, "member_platform_account_id"@, JsonView::Text(account_id(eid)))
    } else {
        d
    };
    if assoc::lookup(e, "member_platform_user_name"@) is None {
        assoc::with(e, "member_platform_user_name"@, JsonView::Text("LAN"@))
    } else {
        e
    }
}

/// Turns a plain value under a name into its text.
fn make_text_member(data: &mut Vec<(String, Json)>, key: &str)
    ensures
        json::members(final(data)@) == with_text_member(json::members(old(data)@), key@),
{
    let mut replacement: Option<String> = None;
    if let Some(j) = assoc::get(data, key) {
        match j {
            Json::Text(_) => {},
            _ => {
                if let Some(t) = lobby_filter::property_text(j) {
                    replacement = Some(text::text_of(t.as_slice()));
                }
            },
        }
    }
    if let Some(t) = replacement {
        assoc::put(data, key, Json::Text(t));
    }
}

/// The text under a name of an object, empty where there is none.
fn member_text<'a>(data: &'a Vec<(String, Json)>, key: &str) -> (r: &'a str)
    ensures
        r@ == text_or_empty(json::members(data@), key@),
{
    match assoc::get(data, key) {
        Some(Json::Text(t)) => t.as_str(),
        _ => {
            proof {
                reveal_strlit("");
            }
            assert(""@ =~= Seq::empty());
            ""
        },
    }
}

/// Completes the data of a member.
pub fn fill_member_data(data: &mut Vec<(String, Json)>, eid: &str)
    ensures
        json::members(final(data)@) == filled(json::members(old(data)@), eid@),
{
    make_text_member(data, "member_platform");
    make_text_member(data, "member_platform_account_id");
    make_text_member(data, "member_platform_user_name");
    let platform = member_text(data, "member_platform");
    if platform.is_empty() || text::eq(platform, "1") {
        assoc::put(data, "member_platform", json::string("Steam"));
    }
    if !all_digits(member_text(data, "member_platform_account_id")) {
        let id = decimal_account_id(eid);
        assoc::put(data, "member_platform_account_id", Json::Text(id));
    }
    if assoc::get(data, "member_platform_user_name").is_none() {
        assoc::put(data, "member_platform_user_name", json::string("LAN"));
    }
}

/// The members of the object under a name, none where there is no object.
pub open spec fn object_field(j: JsonView, key: Seq<char>) -> Seq<(Seq<char>, JsonView)> {
    match j.field(key) {
        Some(v) => v.members_or_none(),
        None => Seq::empty(),
    }
}

/// A copy of the members of an optional object, none where there is no object.
pub fn members_or_none(j: Option<&Json>) -> (r: Vec<(String, Json)>)
    ensures
        json::members(r@) == (match j {
            Some(v) => v@.members_or_none(),
            None => Seq::empty(),
        }),
{
    if let Some(v) = j {
        if let Some(o) = v.members() {
            return json::copy_members(o);
        }
    }
    let r: Vec<(String, Json)> = Vec::new();
    assert(json::members(r@) =~= Seq::empty());
    r
}

/// A member entry with its data replaced; only an object can hold any.
pub open spec fn with_member_data(m: JsonView, data: Seq<(Seq<char>, JsonView)>) -> JsonView {
    match m {
        JsonView::Object(o) => JsonView::Object(
            assoc::with(o, "MemberData"@, JsonView::Object(data)),
        ),
        _ => m,
    }
}

/// Replaces the data of a member entry.
pub(crate) fn set_member_data(m: Json, data: Vec<(String, Json)>) -> (r: Json)
    ensures
        r@ == with_member_data(m@, json::members(data@)),
{
    match m {
        Json::Object(v) => {
            let mut v = v;
            assert(m@->Object_0 =~= json::members(v@));
            assoc::put(&mut v, "MemberData", json::object(data));
            json::object(v)
        },
        _ => m,
    }
}

/// A member entry as clients get it.
pub open spec fn member_for_client(m: JsonView) -> JsonView {
    with_member_data(m, filled(object_field(m, "MemberData"@), member_id_of(m)))
}

/// The members of a lobby as clients get them.
pub fn members_for_client(members: &Vec<Json>) -> (r: Vec<Json>)
    ensures
        json::elements(r@) == json::elements(members@).map_values(
            |m: JsonView| member_for_client(m),
        ),
{
    let mut out: Vec<Json> = Vec::new();
    let mut i: usize = 0;
    let ghost want = json::elements(members@).map_values(|m: JsonView| member_for_client(m));
    while i < members.len()
        invariant
            i <= members@.len(),
            want == json::elements(members@).map_values(|m: JsonView| member_for_client(m)),
            json::elements(out@) == want.take(i as int),
        decreases members@.len() - i,
    {
        let m = &members[i];
        let eid = member_id(m);
        let mut data = members_or_none(m.field("MemberData"));
        fill_member_data(&mut data, eid.as_str());
        let done = set_member_data(m.copy(), data);
        let ghost before = json::elements(out@);
        out.push(done);
        i += 1;
        assert(json::elements(out@) =~= before.push(done@));
        assert(want.take(i as int) =~= want.take(i - 1).push(want[i - 1]));
    }
    assert(want.take(i as int) =~= want);
    out
}

// Lobbies

/// The text that a scalar is, with truth values as 1 and 0.
pub open spec fn scalar_text(s: ScalarView) -> Option<Seq<char>> {
    match s {
        ScalarView::Number(t) => Some(t),
        ScalarView::Text(t) => Some(t),
        ScalarView::Bool(b) => Some(if b { "1"@ } else { "0"@ }),
        _ => None,
    }
}

/// A text without white space around it, if anything is left.
pub open spec fn nonempty(t: Option<Seq<char>>) -> Option<Seq<char>> {
    match t {
        Some(s) => if text::trimmed(s).len() > 0 { Some(text::trimmed(s)) } else { None },
        None => None,
    }
}

/// The text under a name of an object, trimmed, if anything is left.
pub open spec fn nonempty_member(o: Seq<(Seq<char>, JsonView)>, key: Seq<char>) -> Option<
    Seq<char>,
> {
    match assoc::lookup(o, key) {
        Some(j) => nonempty(lobby_filter::as_text(j)),
        None => None,
    }
}

/// The view of an optional text.
pub open spec fn opt_view(s: Option<String>) -> Option<Seq<char>> {
    match s {
        Some(t) => Some(t@),
        None => None,
    }
}

/// A text without white space around it, if anything is left.
fn trim_nonempty(s: &[char]) -> (r: Option<String>)
    ensures
        opt_view(r) == nonempty(Some(s@)),
{
    let t = text::trim(s);
    if t.len() > 0 {
        Some(text::text_of(t))
    } else {
        None
    }
}

/// The text under a name of an object, trimmed, if anything is left.
pub fn map_nonempty(o: &Vec<(String, Json)>, key: &str) -> (r: Option<String>)
    ensures
        opt_view(r) == nonempty_member(json::members(o@), key@),
{
    match assoc::get(o, key) {
        Some(j) => match lobby_filter::property_text(j) {
            Some(t) => trim_nonempty(t.as_slice()),
            None => None,
        },
        None => None,
    }
}

/// The leader's name that a member of a parsed text gives.
pub open spec fn leader_name_of(member: Option<ScalarView>) -> Option<Seq<char>> {
    match member {
        Some(s) => nonempty(scalar_text(s)),
        None => None,
    }
}

/// The leader's name that a member of a parsed text gives.
pub fn leader_name_from(member: Option<Scalar>) -> (r: Option<String>)
    ensures
        opt_view(r) == leader_name_of(json::scalar(member)),
{
    match member {
        Some(Scalar::Number(t)) => trim_nonempty(text::chars_of(t.as_str()).as_slice()),
        Some(Scalar::Text(t)) => trim_nonempty(text::chars_of(t.as_str()).as_slice()),
        Some(Scalar::Bool(b)) => trim_nonempty(
            text::chars_of(if b { "1" } else { "0" }).as_slice(),
        ),
        _ => None,
    }
}

/// The leader's name in a text that holds a JSON object.
pub fn string_key5_leader_name(raw: &str) -> (r: Option<String>)
    ensures
        opt_view(r) == leader_name_of(json::json_text_member(raw@, "leader_name"@)),
{
    leader_name_from(json::text_member(raw, "leader_name"))
}

/// Who an owner entry is about, empty where it names nobody.
pub open spec fn owner_id_of(owner: JsonView) -> Seq<char> {
    match owner.text_field("Id"@) {
        Some(id) => id,
        None => match owner.text() {
            Some(t) => t,
            None => Seq::empty(),
        },
    }
}

/// The name of the member that owns the lobby, as far as one is known.
pub open spec fn member_name(members: Seq<JsonView>, owner: Seq<char>) -> Option<Seq<char>>
    decreases members.len(),
{
    if members.len() == 0 {
        None
    } else {
        let name = nonempty_member(
            object_field(members[0], "MemberData"@),
            "member_platform_user_name"@,
        );
        if member_id_of(members[0]) == owner && name is Some {
            name
        } else {
            member_name(members.drop_first(), owner)
        }
    }
}

impl LobbyState {
    pub open spec fn owner_id(self) -> Seq<char> {
        owner_id_of(self.owner)
    }

    /// The name under which the lobby is shown.
    pub open spec fn display_name(self) -> Seq<char> {
        match nonempty_member(self.lobby_data, "leader_name"@) {
            Some(t) => t,
            None => match nonempty_member(self.lobby_data, "leader_platform_user_name"@) {
                Some(t) => t,
                None => if self.owner_id().len() > 0 && member_name(
                    self.members,
                    self.owner_id(),
                ) is Some {
                    member_name(self.members, self.owner_id())->0
                } else {
                    "LAN"@
                },
            },
        }
    }

    /// The property with which the leader is described where the lobby describes none.
    pub open spec fn leader_object(self) -> Seq<(Seq<char>, Seq<char>)> {
        let d = self.lobby_data;
        seq![
            ("leader_name"@, self.display_name()),
            ("leader_platform"@, nonempty_or(d, "leader_platform"@, "1"@)),
            ("leader_platform_account_id"@, nonempty_or(d, "leader_platform_account_id"@, "1"@)),
            (
                "leader_platform_user_name"@,
                nonempty_or(d, "leader_platform_user_name"@, self.display_name()),
            ),
        ]
    }

    /// What a search shows of the lobby: its search properties, with a description of the leader
    /// and the owner's name.
    pub open spec fn found_data(self) -> Seq<(Seq<char>, JsonView)> {
        let sd = with_leader(self.search_data, self.leader_object());
        if assoc::lookup(sd, "string_key8"@) is None && self.owner_id().len() > 0 {
            assoc::with(sd, "string_key8"@, JsonView::Text(self.owner_id()))
        } else {
            sd
        }
    }

    /// The entity is in the lobby, as a member or as its owner.
    pub open spec fn has_entity(self, eid: Seq<char>) -> bool {
        eid.len() > 0 && (has_member(self.members, eid) || self.owner_id() == eid)
    }
}

/// The trimmed text under a name, or another where nothing is there.
pub open spec fn nonempty_or(
    o: Seq<(Seq<char>, JsonView)>,
    key: Seq<char>,
    other: Seq<char>,
) -> Seq<char> {
    match nonempty_member(o, key) {
        Some(t) => t,
        None => other,
    }
}

/// The property holds a leader's name, as an object or as the JSON text of one.
pub open spec fn names_leader(j: Option<JsonView>) -> bool {
    match j {
        Some(JsonView::Text(t)) => leader_name_of(json::json_text_member(t, "leader_name"@)) is Some,
        Some(JsonView::Object(o)) => nonempty_member(o, "leader_name"@) is Some,
        _ => false,
    }
}

/// Search properties whose `string_key5` is the JSON text of an object that names the leader:
/// their own where it does, else the given one.
pub open spec fn with_leader(
    sd: Seq<(Seq<char>, JsonView)>,
    leader: Seq<(Seq<char>, Seq<char>)>,
) -> Seq<(Seq<char>, JsonView)> {
    let own = assoc::lookup(sd, "string_key5"@);
    if !names_leader(own) {
        assoc::with(sd, "string_key5"@, JsonView::Text(json::json_flat_object(leader)))
    } else if own->0 is Object {
        assoc::with(sd, "string_key5"@, JsonView::Text(json::rendered(own->0)))
    } else {
        sd
    }
}

/// The search properties describe the leader by an object that names one.
pub open spec fn has_leader_object(sd: Seq<(Seq<char>, JsonView)>) -> bool {
    let own = assoc::lookup(sd, "string_key5"@);
    own is Some && own->0 is Object && names_leader(own)
}

/// A lobby is never shown without a name.
proof fn lemma_display_name(l: LobbyState)
    ensures
        nonempty(Some(l.display_name())) == Some(l.display_name()),
{
    let d = l.lobby_data;
    if let Some(j) = assoc::lookup(d, "leader_name"@) {
        if let Some(t) = lobby_filter::as_text(j) {
            text::lemma_trimmed_twice(t);
        }
    }
    if let Some(j) = assoc::lookup(d, "leader_platform_user_name"@) {
        if let Some(t) = lobby_filter::as_text(j) {
            text::lemma_trimmed_twice(t);
        }
    }
    lemma_member_name(l.members, l.owner_id());
    reveal_strlit("LAN");
    let lan = "LAN"@;
    let p = |c: char| text::is_space(c);
    assert(!p(lan[0]) && !p(lan[2]));
    text::lemma_span(lan, p, 0);
    assert(lan.skip(0) =~= lan);
    text::lemma_span_back(lan, p, 3);
    assert(lan.take(3) =~= lan);
}

proof fn lemma_member_name(members: Seq<JsonView>, owner: Seq<char>)
    ensures
        member_name(members, owner) is Some ==> nonempty(member_name(members, owner))
            == member_name(members, owner),
    decreases members.len(),
{
    if members.len() > 0 {
        let data = object_field(members[0], "MemberData"@);
        if let Some(j) = assoc::lookup(data, "member_platform_user_name"@) {
            if let Some(t) = lobby_filter::as_text(j) {
                text::lemma_trimmed_twice(t);
            }
        }
        lemma_member_name(members.drop_first(), owner);
    }
}

/// One of the members is the entity.
pub open spec fn has_member(members: Seq<JsonView>, eid: Seq<char>) -> bool {
    exists|i: int| 0 <= i < members.len() && member_id_of(#[trigger] members[i]) == eid
}

/// The name of the member that owns the lobby.
fn owner_member_user_name(members: &Vec<Json>, owner: &str) -> (r: Option<String>)
    ensures
        opt_view(r) == member_name(json::elements(members@), owner@),
{
    let ghost all = json::elements(members@);
    let mut i: usize = 0;
    assert(all.skip(0) =~= all);
    while i < members.len()
        invariant
            i <= members@.len(),
            all == json::elements(members@),
            member_name(all, owner@) == member_name(all.skip(i as int), owner@),
        decreases members@.len() - i,
    {
        let m = &members[i];
        assert(all.skip(i as int)[0] == m@);
        assert(all.skip(i as int).drop_first() =~= all.skip(i + 1));
        let data = members_or_none(m.field("MemberData"));
        if text::eq(member_id(m).as_str(), owner) {
            if let Some(name) = map_nonempty(&data, "member_platform_user_name") {
                return Some(name);
            }
        }
        i += 1;
    }
    None
}

/// The trimmed text under a name, or another where nothing is there.
fn map_nonempty_or(o: &Vec<(String, Json)>, key: &str, other: &str) -> (r: String)
    ensures
        r@ == nonempty_or(json::members(o@), key@, other@),
{
    match map_nonempty(o, key) {
        Some(t) => t,
        None => other.to_owned(),
    }
}

impl Lobby {
    /// Who owns the lobby, empty where nobody does.
    pub fn owner_id(&self) -> (r: String)
        ensures
            r@ == self@.owner_id(),
    {
        match self.owner.text_field("Id") {
            Some(id) => id.to_owned(),
            None => match self.owner.text() {
                Some(t) => t.to_owned(),
                None => String::new(),
            },
        }
    }

    /// The name under which the lobby is shown.
    pub fn display_name(&self) -> (r: String)
        ensures
            r@ == self@.display_name(),
    {
        if let Some(t) = map_nonempty(&self.lobby_data, "leader_name") {
            return t;
        }
        if let Some(t) = map_nonempty(&self.lobby_data, "leader_platform_user_name") {
            return t;
        }
        let owner = self.owner_id();
        if !owner.as_str().is_empty() {
            if let Some(t) = owner_member_user_name(&self.members, owner.as_str()) {
                return t;
            }
        }
        "LAN".to_owned()
    }

    /// The JSON text that describes the leader.
    fn leader_text(&self) -> (r: String)
        ensures
            r@ == json::json_flat_object(self@.leader_object()),
            json::json_text_member(r@, "leader_name"@) == Some(
                ScalarView::Text(self@.display_name()),
            ),
    {
        let leader = self.display_name();
        let mut o: Vec<(String, String)> = Vec::new();
        o.push(("leader_name".to_owned(), leader.clone()));
        o.push(
            (
                "leader_platform".to_owned(),
                map_nonempty_or(&self.lobby_data, "leader_platform", "1"),
            ),
        );
        o.push(
            (
                "leader_platform_account_id".to_owned(),
                map_nonempty_or(&self.lobby_data, "leader_platform_account_id", "1"),
            ),
        );
        o.push(
            (
                "leader_platform_user_name".to_owned(),
                map_nonempty_or(&self.lobby_data, "leader_platform_user_name", leader.as_str()),
            ),
        );
        proof {
            let p = assoc::pairs(o@);
            assert(p =~= self@.leader_object());
            reveal_strlit("leader_name");
            reveal_strlit("leader_platform");
            reveal_strlit("leader_platform_account_id");
            reveal_strlit("leader_platform_user_name");
            assert("leader_platform_account_id"@[16] != "leader_platform_user_name"@[16]);
            assert(p[0].0.len() == 11 && p[1].0.len() == 15 && p[2].0.len() == 26 && p[3].0.len()
                == 25);
            assert(assoc::distinct(p));
            assoc::lemma_place_is(p, "leader_name"@, 0);
        }
        json::flat_object_text(o)
    }

    /// Sees to it that the search properties name the leader.
    fn ensure_search_leader_name(&self, sd: &mut Vec<(String, Json)>)
        ensures
            json::members(final(sd)@) == with_leader(
                json::members(old(sd)@),
                self@.leader_object(),
            ),
            !has_leader_object(json::members(old(sd)@)) ==> names_leader(
                assoc::lookup(json::members(final(sd)@), "string_key5"@),
            ),
    {
        let mut text_of_object: Option<String> = None;
        let usable = match assoc::get(sd, "string_key5") {
            Some(j) => match j {
                Json::Text(t) => string_key5_leader_name(t.as_str()).is_some(),
                Json::Object(o) => {
                    assert(j@->Object_0 =~= json::members(o@));
                    text_of_object = Some(j.render());
                    map_nonempty(o, "leader_name").is_some()
                },
                _ => false,
            },
            None => false,
        };
        if !usable {
            let t = self.leader_text();
            proof {
                lemma_display_name(self@);
                assoc::set_is_found(
                    json::members(old(sd)@),
                    "string_key5"@,
                    JsonView::Text(t@),
                    Seq::empty(),
                );
            }
            assoc::put(sd, "string_key5", Json::Text(t));
        } else if let Some(t) = text_of_object {
            assoc::put(sd, "string_key5", Json::Text(t));
        }
    }

    /// What a search shows of the lobby.
    pub fn search_data_for_find(&self) -> (r: Vec<(String, Json)>)
        ensures
            json::members(r@) == self@.found_data(),
            !has_leader_object(self@.search_data) ==> names_leader(
                assoc::lookup(json::members(r@), "string_key5"@),
            ),
    {
        let mut sd = json::copy_members(&self.search_data);
        self.ensure_search_leader_name(&mut sd);
        if assoc::get(&sd, "string_key8").is_none() {
            let owner = self.owner_id();
            if !owner.as_str().is_empty() {
                proof {
                    reveal_strlit("string_key5");
                    reveal_strlit("string_key8");
                    assert("string_key5"@[10] != "string_key8"@[10]);
                    assoc::set_is_found(
                        json::members(sd@),
                        "string_key8"@,
                        JsonView::Text(owner@),
                        "string_key5"@,
                    );
                }
                assoc::put(&mut sd, "string_key8", Json::Text(owner));
            }
        }
        sd
    }

    /// Where the entity stands among the members.
    pub(crate) fn find_member(&self, eid: &str) -> (r: Option<usize>)
        ensures
            match r {
                Some(i) => i < self@.members.len() && member_place(self@.members, eid@) == Some(
                    i as int,
                ),
                None => member_place(self@.members, eid@) is None,
            },
            r is Some <==> has_member(self@.members, eid@),
    {
        let ghost all = self@.members;
        let mut i: usize = 0;
        while i < self.members.len()
            invariant
                i <= self.members@.len(),
                all == json::elements(self.members@),
                forall|j: int| 0 <= j < i ==> member_id_of(#[trigger] all[j]) != eid@,
            decreases self.members@.len() - i,
        {
            assert(all[i as int] == self.members@[i as int]@);
            if text::eq(member_id(&self.members[i]).as_str(), eid) {
                proof {
                    lemma_member_place_is(all, eid@, i as int);
                }
                return Some(i);
            }
            i += 1;
        }
        proof {
            lemma_member_place(all, eid@);
        }
        None
    }

    /// Whether the entity is in the lobby, as a member or as its owner.
    pub fn has_entity(&self, eid: &str) -> (r: bool)
        ensures
            r == self@.has_entity(eid@),
    {
        if eid.is_empty() {
            return false;
        }
        self.find_member(eid).is_some() || text::eq(self.owner_id().as_str(), eid)
    }
}

/// Where an entity first stands among members.
pub open spec fn member_place(members: Seq<JsonView>, eid: Seq<char>) -> Option<int>
    decreases members.len(),
{
    if members.len() == 0 {
        None
    } else if member_id_of(members[0]) == eid {
        Some(0)
    } else {
        match member_place(members.drop_first(), eid) {
            Some(i) => Some(i + 1),
            None => None,
        }
    }
}

pub proof fn lemma_member_place(members: Seq<JsonView>, eid: Seq<char>)
    ensures
        match member_place(members, eid) {
            Some(i) => 0 <= i < members.len() && member_id_of(members[i]) == eid && forall|j: int|
                0 <= j < i ==> member_id_of(#[trigger] members[j]) != eid,
            None => forall|j: int|
                0 <= j < members.len() ==> member_id_of(#[trigger] members[j]) != eid,
        },
    decreases members.len(),
{
    if members.len() > 0 && member_id_of(members[0]) != eid {
        let t = members.drop_first();
        lemma_member_place(t, eid);
        assert forall|j: int| 0 < j < members.len() implies members[j] == t[j - 1] by {}
    }
}

pub proof fn lemma_member_place_is(members: Seq<JsonView>, eid: Seq<char>, i: int)
    requires
        0 <= i < members.len(),
        member_id_of(members[i]) == eid,
        forall|j: int| 0 <= j < i ==> member_id_of(#[trigger] members[j]) != eid,
    ensures
        member_place(members, eid) == Some(i),
    decreases i,
{
    if i > 0 {
        lemma_member_place_is(members.drop_first(), eid, i - 1);
    }
}

// Answers

/// An answer: an HTTP status and a JSON body.
#[derive(Debug)]
pub struct Reply {
    pub status: u16,
    pub body: Json,
}

#[verifier::ext_equal]
pub struct ReplyModel {
    pub status: u16,
    pub body: JsonView,
}

impl View for Reply {
    type V = ReplyModel;

    open spec fn view(&self) -> ReplyModel {
        ReplyModel { status: self.status, body: self.body@ }
    }
}

/// An object without members.
pub open spec fn nothing() -> JsonView {
    JsonView::Object(Seq::empty())
}

/// A request that succeeded.
pub open spec fn ok_reply(data: JsonView) -> ReplyModel {
    ReplyModel {
        status: 200,
        body: JsonView::Object(
            seq![
                ("code"@, json::int_view(200)),
                ("status"@, JsonView::Text("OK"@)),
                ("data"@, data),
            ],
        ),
    }
}

/// The HTTP status of an error and its name.
pub open spec fn error_status(error: Seq<char>) -> (u16, Seq<char>) {
    if error == "LobbyNotFound"@ {
        (404, "NotFound"@)
    } else if error == "LobbyMemberLimitExceeded"@ || error == "PartyMemberLimitExceeded"@ {
        (409, "Conflict"@)
    } else {
        (400, "BadRequest"@)
    }
}

/// A request that failed: the HTTP status tells it, and the body tells it again.
pub open spec fn error_reply(error: Seq<char>, message: Seq<char>) -> ReplyModel {
    let (status, name) = error_status(error);
    ReplyModel {
        status,
        body: JsonView::Object(
            seq![
                ("code"@, json::int_view(status as int)),
                ("status"@, JsonView::Text(name)),
                ("error"@, JsonView::Text(error)),
                ("errorCode"@, json::int_view(1114)),
                ("errorMessage"@, JsonView::Text(message)),
            ],
        ),
    }
}

/// A request of the game service that succeeded.
pub open spec fn game_reply(data: JsonView) -> ReplyModel {
    ReplyModel {
        status: 200,
        body: JsonView::Object(
            seq![
                (
                    "meta"@,
                    JsonView::Object(seq![("error_code"@, json::int_view(0))]),
                ),
                ("common"@, JsonView::Array(Seq::empty())),
                ("data"@, data),
                ("responseCode"@, json::int_view(0)),
            ],
        ),
    }
}

/// An empty list of members, to be added to.
pub(crate) fn start() -> (r: Vec<(String, Json)>)
    ensures
        json::members(r@) == Seq::<(Seq<char>, JsonView)>::empty(),
{
    let r: Vec<(String, Json)> = Vec::new();
    assert(json::members(r@) =~= Seq::empty());
    r
}

/// An object without members.
pub fn empty_object() -> (r: Json)
    ensures
        r@ == nothing(),
{
    json::object(start())
}

/// An array without elements.
pub(crate) fn empty_array() -> (r: Json)
    ensures
        r@ == JsonView::Array(Seq::empty()),
{
    let v: Vec<Json> = Vec::new();
    assert(json::elements(v@) =~= Seq::empty());
    json::array(v)
}

pub fn playfab_ok(data: Json) -> (r: Reply)
    ensures
        r@ == ok_reply(data@),
{
    let mut o = start();
    json::add_member(&mut o, "code", json::integer_value(200));
    json::add_member(&mut o, "status", json::string("OK"));
    json::add_member(&mut o, "data", data);
    let r = Reply { status: 200, body: json::object(o) };
    assert(r@.body->Object_0 =~= ok_reply(data@).body->Object_0);
    r
}

pub fn playfab_err(error: &str, message: &str) -> (r: Reply)
    ensures
        r@ == error_reply(error@, message@),
{
    let (status, name): (u16, &str) = if text::eq(error, "LobbyNotFound") {
        (404, "NotFound")
    } else if text::eq(error, "LobbyMemberLimitExceeded") || text::eq(
        error,
        "PartyMemberLimitExceeded",
    ) {
        (409, "Conflict")
    } else {
        (400, "BadRequest")
    };
    let mut o = start();
    json::add_member(&mut o, "code", json::integer_value(status as i64));
    json::add_member(&mut o, "status", json::string(name));
    json::add_member(&mut o, "error", json::string(error));
    json::add_member(&mut o, "errorCode", json::integer_value(1114));
    json::add_member(&mut o, "errorMessage", json::string(message));
    let r = Reply { status, body: json::object(o) };
    assert(r@.body->Object_0 =~= error_reply(error@, message@).body->Object_0);
    r
}

pub fn cygames_ok(data: Json) -> (r: Reply)
    ensures
        r@ == game_reply(data@),
{
    let mut meta = start();
    json::add_member(&mut meta, "error_code", json::integer_value(0));
    let mut o = start();
    json::add_member(&mut o, "meta", json::object(meta));
    json::add_member(&mut o, "common", empty_array());
    json::add_member(&mut o, "data", data);
    json::add_member(&mut o, "responseCode", json::integer_value(0));
    let r = Reply { status: 200, body: json::object(o) };
    assert(r@.body->Object_0 =~= game_reply(data@).body->Object_0);
    r
}

// State

/// A peer of a party mesh.
#[derive(Debug)]
pub struct PartyMember {
    pub entity_id: String,
    pub ip: String,
    pub udp_port: u16,
    /// When the peer was last heard of.
    pub seen: Moment,
    /// The peer's own count of its registrations; 0 where it sends none.
    pub member_seq: u64,
}

#[verifier::ext_equal]
pub struct PartyMemberModel {
    pub entity_id: Seq<char>,
    pub ip: Seq<char>,
    pub udp_port: u16,
    pub seen: MomentView,
    pub member_seq: u64,
}

impl View for PartyMember {
    type V = PartyMemberModel;

    open spec fn view(&self) -> PartyMemberModel {
        PartyMemberModel {
            entity_id: self.entity_id@,
            ip: self.ip@,
            udp_port: self.udp_port,
            seen: self.seen@,
            member_seq: self.member_seq,
        }
    }
}

/// A party mesh: its members by entity.
#[derive(Debug)]
pub struct PartyNet {
    pub members: Vec<(String, PartyMember)>,
}

impl View for PartyNet {
    type V = Seq<(Seq<char>, PartyMemberModel)>;

    open spec fn view(&self) -> Seq<(Seq<char>, PartyMemberModel)> {
        assoc::pairs(self.members@)
    }
}

/// The broker: its settings, the accounts by token and ticket, the lobbies and meshes by name.
#[derive(Debug)]
pub struct App {
    pub title_id: String,
    pub http_port: u16,
    pub ws_port: u16,
    pub max_players: i64,
    pub override_game_max: bool,
    pub sessions: Vec<(String, Player)>,
    pub lobbies: Vec<(String, Lobby)>,
    pub party: Vec<(String, PartyNet)>,
}

#[verifier::ext_equal]
pub struct AppModel {
    pub title_id: Seq<char>,
    pub http_port: u16,
    pub ws_port: u16,
    pub max_players: i64,
    pub override_game_max: bool,
    pub sessions: Seq<(Seq<char>, PlayerModel)>,
    pub lobbies: Seq<(Seq<char>, LobbyState)>,
    pub party: Seq<(Seq<char>, Seq<(Seq<char>, PartyMemberModel)>)>,
}

impl View for App {
    type V = AppModel;

    open spec fn view(&self) -> AppModel {
        AppModel {
            title_id: self.title_id@,
            http_port: self.http_port,
            ws_port: self.ws_port,
            max_players: self.max_players,
            override_game_max: self.override_game_max,
            sessions: assoc::pairs(self.sessions@),
            lobbies: assoc::pairs(self.lobbies@),
            party: assoc::pairs(self.party@),
        }
    }
}

impl LobbyState {
    /// A lobby has room for its members and was made for a number of players that is allowed.
    pub open spec fn wf(self) -> bool {
        &&& MIN_PLAYERS <= self.max_players <= MAX_PLAYERS_CEILING
        &&& self.members.len() <= self.max_players
    }
}

impl AppModel {
    /// What every request keeps: names are unique, a lobby goes by its own name and is not
    /// overfull, and neither is a mesh.
    pub open spec fn wf(self) -> bool {
        &&& assoc::distinct(self.sessions)
        &&& assoc::distinct(self.lobbies)
        &&& assoc::distinct(self.party)
        &&& forall|i: int|
            0 <= i < self.lobbies.len() ==> (#[trigger] self.lobbies[i]).1.id == self.lobbies[i].0
                && self.lobbies[i].1.wf()
        &&& forall|i: int|
            0 <= i < self.party.len() ==> assoc::distinct((#[trigger] self.party[i]).1)
                && self.party[i].1.len() <= self.mesh_cap()
    }

    /// The configured limit of lobbies and meshes.
    pub open spec fn mesh_cap(self) -> i64 {
        clamped(self.max_players as int)
    }

    /// How many players a new lobby is for.
    pub open spec fn lobby_max(self, requested: Option<int>) -> i64 {
        if self.override_game_max || requested is None {
            self.mesh_cap()
        } else {
            clamped(requested->0)
        }
    }

    /// The broker knowing an account by its token and by its ticket.
    pub open spec fn with_player(self, p: PlayerModel) -> AppModel {
        AppModel {
            sessions: assoc::with(
                assoc::with(self.sessions, p.entity_token, p),
                p.session_ticket,
                p,
            ),
            ..self
        }
    }
}

/// The token of an account: base64 for URLs, without padding.
pub open spec fn token_of(entity_id: Seq<char>) -> Seq<char> {
    let b = codec::base64_of(encode_utf8(entity_id));
    "STUB."@ + b.take(text::span_back(b, |c: char| c == '=')).map_values(|c: char| url_safe(c))
}

/// The character that stands for one of base64 in URLs.
pub open spec fn url_safe(c: char) -> char {
    if c == '+' {
        '-'
    } else if c == '/' {
        '_'
    } else {
        c
    }
}

/// The account that a login ticket belongs to.
pub open spec fn player_of(ticket: Seq<char>) -> PlayerModel {
    let digest = codec::sha1_hex_of(if ticket.len() == 0 { "empty"@ } else { ticket });
    let playfab_id = text::uppered(digest.take(16));
    let entity_id = codec::sha1_hex_of("tpa:"@ + playfab_id).take(16);
    PlayerModel {
        playfab_id,
        entity_id,
        entity_type: "title_player_account"@,
        entity_token: token_of(entity_id),
        session_ticket: "STUB-SESSION-"@ + playfab_id,
        token_expiration: "2027-01-01T00:00:00.000Z"@,
    }
}

/// The token of an account.
fn make_token(entity_id: &str) -> (r: String)
    requires
        encode_utf8(entity_id@).len() <= 64,
    ensures
        r@ == token_of(entity_id@),
{
    let b = codec::base64_text(entity_id);
    let v = text::chars_of(b.as_str());
    let mut k: usize = v.len();
    while k > 0 && v[k - 1] == '='
        invariant
            k <= v@.len(),
            forall|j: int| k <= j < v@.len() ==> #[trigger] v@[j] == '=',
        decreases k,
    {
        k -= 1;
    }
    proof {
        text::lemma_span_back(v@, |c: char| c == '=', k as int);
    }
    let mut r = String::new();
    r.append("STUB.");
    let ghost want = v@.take(k as int).map_values(|c: char| url_safe(c));
    let mut i: usize = 0;
    assert(r@ =~= "STUB."@ + want.take(0));
    while i < k
        invariant
            i <= k <= v@.len(),
            want == v@.take(k as int).map_values(|c: char| url_safe(c)),
            r@ == "STUB."@ + want.take(i as int),
        decreases k - i,
    {
        let c: char = v[i];
        r.push(
            if c == '+' {
                '-'
            } else if c == '/' {
                '_'
            } else {
                c
            },
        );
        i += 1;
        assert(want.take(i as int) =~= want.take(i - 1).push(want[i - 1]));
        assert(r@ =~= "STUB."@ + want.take(i as int));
    }
    assert(want.take(i as int) =~= want);
    r
}

/// The first sixteen characters of a digest.
fn first16(s: &str) -> (r: Vec<char>)
    requires
        s@.len() >= 16,
    ensures
        r@ == s@.take(16),
{
    let v = text::chars_of(s);
    let mut r: Vec<char> = Vec::new();
    r.extend_from_slice(text::head(v.as_slice(), 16));
    assert(r@ =~= s@.take(16));
    r
}

/// The account that a login ticket belongs to.
pub fn make_player(ticket: &str) -> (r: Player)
    ensures
        r@ == player_of(ticket@),
{
    let digest = codec::sha1_hex(
        if ticket.is_empty() {
            "empty"
        } else {
            ticket
        },
    );
    let playfab_id = text::text_of(
        text::to_uppered(first16(digest.as_str()).as_slice()).as_slice(),
    );
    let mut seed = String::new();
    seed.append("tpa:");
    seed.append(playfab_id.as_str());
    assert(seed@ =~= "tpa:"@ + playfab_id@);
    let named = codec::sha1_hex(seed.as_str());
    let entity_id = text::text_of(first16(named.as_str()).as_slice());
    proof {
        let e = entity_id@;
        assert forall|i: int| 0 <= i < e.len() implies vstd::utf8::is_ascii_chars(
            seq![#[trigger] e[i]],
        ) by {
            assert(e[i] == named@[i]);
        }
        assert(vstd::utf8::is_ascii_chars(e));
        vstd::utf8::is_ascii_chars_encode_utf8(e);
    }
    let entity_token = make_token(entity_id.as_str());
    let mut session_ticket = String::new();
    session_ticket.append("STUB-SESSION-");
    session_ticket.append(playfab_id.as_str());
    assert(session_ticket@ =~= "STUB-SESSION-"@ + playfab_id@);
    Player {
        playfab_id,
        entity_id,
        entity_type: "title_player_account".to_owned(),
        entity_token,
        session_ticket,
        token_expiration: "2027-01-01T00:00:00.000Z".to_owned(),
    }
}

// Who asks

/// The first account with an entity.
pub open spec fn session_player(
    sessions: Seq<(Seq<char>, PlayerModel)>,
    eid: Seq<char>,
) -> Option<PlayerModel>
    decreases sessions.len(),
{
    if sessions.len() == 0 {
        None
    } else if sessions[0].1.entity_id == eid {
        Some(sessions[0].1)
    } else {
        session_player(sessions.drop_first(), eid)
    }
}

/// The entity of the object under a name.
pub open spec fn entity_field(body: JsonView, key: Seq<char>) -> Option<Seq<char>> {
    match body.field(key) {
        Some(e) => e.text_field("Id"@),
        None => None,
    }
}

impl AppModel {
    /// The entity whose token or ticket a header holds.
    pub open spec fn token_entity(
        self,
        headers: Seq<(Seq<char>, Seq<char>)>,
        name: Seq<char>,
    ) -> Option<Seq<char>> {
        match assoc::lookup(headers, name) {
            Some(token) => match assoc::lookup(self.sessions, token) {
                Some(p) => Some(p.entity_id),
                None => None,
            },
            None => None,
        }
    }

    /// The entity that a request comes from: by its token, else as the body has it.
    pub open spec fn requester(
        self,
        body: JsonView,
        headers: Seq<(Seq<char>, Seq<char>)>,
    ) -> Option<Seq<char>> {
        if self.token_entity(headers, "x-entitytoken"@) is Some {
            self.token_entity(headers, "x-entitytoken"@)
        } else if self.token_entity(headers, "x-authorization"@) is Some {
            self.token_entity(headers, "x-authorization"@)
        } else if self.token_entity(headers, "x-authentication"@) is Some {
            self.token_entity(headers, "x-authentication"@)
        } else if body.text_either("EntityId"@, "entityId"@) is Some {
            body.text_either("EntityId"@, "entityId"@)
        } else if entity_field(body, "MemberEntity"@) is Some {
            entity_field(body, "MemberEntity"@)
        } else if entity_field(body, "Owner"@) is Some {
            entity_field(body, "Owner"@)
        } else if entity_field(body, "SearchingEntity"@) is Some {
            entity_field(body, "SearchingEntity"@)
        } else {
            entity_field(body, "Entity"@)
        }
    }

    /// The account that a request acts for, if the broker knows it.
    pub open spec fn known_player(
        self,
        body: JsonView,
        headers: Seq<(Seq<char>, Seq<char>)>,
    ) -> Option<PlayerModel> {
        match self.requester(body, headers) {
            Some(eid) => session_player(self.sessions, eid),
            None => None,
        }
    }

    /// The account that a request acts for, and the broker knowing it: where it does not know the
    /// account, that of the given ticket.
    pub open spec fn acting(
        self,
        body: JsonView,
        headers: Seq<(Seq<char>, Seq<char>)>,
        ticket: Seq<char>,
    ) -> (AppModel, PlayerModel) {
        match self.known_player(body, headers) {
            Some(p) => (self, p),
            None => (self.with_player(player_of(ticket)), player_of(ticket)),
        }
    }
}

/// The entity of the object under a name.
fn entity_in<'a>(body: &'a Json, key: &str) -> (r: Option<&'a str>)
    ensures
        match r {
            Some(s) => entity_field(body@, key@) == Some(s@),
            None => entity_field(body@, key@) is None,
        },
{
    match body.field(key) {
        Some(e) => e.text_field("Id"),
        None => None,
    }
}

impl App {
    /// A broker that nobody has called yet.
    pub fn new(
        title_id: String,
        http_port: u16,
        ws_port: u16,
        max_players: i64,
        override_game_max: bool,
    ) -> (r: App)
        ensures
            r@ == (AppModel {
                title_id: title_id@,
                http_port,
                ws_port,
                max_players,
                override_game_max,
                sessions: Seq::empty(),
                lobbies: Seq::empty(),
                party: Seq::empty(),
            }),
            r@.wf(),
    {
        let r = App {
            title_id,
            http_port,
            ws_port,
            max_players,
            override_game_max,
            sessions: Vec::new(),
            lobbies: Vec::new(),
            party: Vec::new(),
        };
        assert(r@.sessions =~= Seq::empty());
        assert(r@.lobbies =~= Seq::empty());
        assert(r@.party =~= Seq::empty());
        r
    }
}

impl App {
    /// The entity whose token or ticket a header holds.
    fn token_entity(&self, headers: &Vec<(String, String)>, name: &str) -> (r: Option<String>)
        ensures
            opt_view(r) == self@.token_entity(assoc::pairs(headers@), name@),
    {
        match assoc::get(headers, name) {
            Some(token) => match assoc::get(&self.sessions, token.as_str()) {
                Some(p) => Some(p.entity_id.clone()),
                None => None,
            },
            None => None,
        }
    }

    /// The entity that a request comes from.
    pub fn request_entity_id(&self, body: &Json, headers: &Vec<(String, String)>) -> (r: Option<
        String,
    >)
        ensures
            opt_view(r) == self@.requester(body@, assoc::pairs(headers@)),
    {
        if let Some(id) = self.token_entity(headers, "x-entitytoken") {
            return Some(id);
        }
        if let Some(id) = self.token_entity(headers, "x-authorization") {
            return Some(id);
        }
        if let Some(id) = self.token_entity(headers, "x-authentication") {
            return Some(id);
        }
        if let Some(id) = body.text_either("EntityId", "entityId") {
            return Some(id.to_owned());
        }
        if let Some(id) = entity_in(body, "MemberEntity") {
            return Some(id.to_owned());
        }
        if let Some(id) = entity_in(body, "Owner") {
            return Some(id.to_owned());
        }
        if let Some(id) = entity_in(body, "SearchingEntity") {
            return Some(id.to_owned());
        }
        match entity_in(body, "Entity") {
            Some(id) => Some(id.to_owned()),
            None => None,
        }
    }

    /// The first account with an entity.
    fn find_player(&self, eid: &str) -> (r: Option<Player>)
        ensures
            match r {
                Some(p) => session_player(self@.sessions, eid@) == Some(p@),
                None => session_player(self@.sessions, eid@) is None,
            },
    {
        let ghost all = self@.sessions;
        let mut i: usize = 0;
        assert(all.skip(0) =~= all);
        while i < self.sessions.len()
            invariant
                i <= self.sessions@.len(),
                all == assoc::pairs(self.sessions@),
                session_player(all, eid@) == session_player(all.skip(i as int), eid@),
            decreases self.sessions@.len() - i,
        {
            let e = &self.sessions[i];
            assert(all.skip(i as int)[0] == (e.0@, e.1@));
            assert(all.skip(i as int).drop_first() =~= all.skip(i + 1));
            if text::eq(e.1.entity_id.as_str(), eid) {
                return Some(e.1.copy());
            }
            i += 1;
        }
        None
    }

    /// Takes in the account that a login ticket belongs to.
    pub fn player_from_ticket(&mut self, ticket: &str) -> (p: Player)
        ensures
            p@ == player_of(ticket@),
            final(self)@ == old(self)@.with_player(p@),
            old(self)@.wf() ==> final(self)@.wf(),
    {
        let p = make_player(ticket);
        proof {
            let a = self@;
            assoc::set_is_found(a.sessions, p@.entity_token, p@, Seq::empty());
            assoc::set_is_found(
                assoc::with(a.sessions, p@.entity_token, p@),
                p@.session_ticket,
                p@,
                Seq::empty(),
            );
        }
        assoc::put(&mut self.sessions, p.entity_token.as_str(), p.copy());
        assoc::put(&mut self.sessions, p.session_ticket.as_str(), p.copy());
        p
    }

    /// The account that a request acts for; that of the given ticket where it is not known.
    pub(crate) fn acting_player(
        &mut self,
        body: &Json,
        headers: &Vec<(String, String)>,
        ticket: &str,
    ) -> (p: Player)
        ensures
            (final(self)@, p@) == old(self)@.acting(body@, assoc::pairs(headers@), ticket@),
            old(self)@.wf() ==> final(self)@.wf(),
            final(self)@.lobbies == old(self)@.lobbies,
    {
        if let Some(eid) = self.request_entity_id(body, headers) {
            if let Some(p) = self.find_player(eid.as_str()) {
                return p;
            }
        }
        self.player_from_ticket(ticket)
    }
}

/// The entity of an account.
pub open spec fn entity_view(p: PlayerModel) -> JsonView {
    JsonView::Object(
        seq![
            ("Id"@, JsonView::Text(p.entity_id)),
            ("Type"@, JsonView::Text(p.entity_type)),
            ("TypeString"@, JsonView::Text(p.entity_type)),
        ],
    )
}

/// What a login is answered with.
pub open spec fn login_view(p: PlayerModel) -> JsonView {
    JsonView::Object(
        seq![
            ("SessionTicket"@, JsonView::Text(p.session_ticket)),
            ("PlayFabId"@, JsonView::Text(p.playfab_id)),
            ("NewlyCreated"@, JsonView::Bool(true)),
            (
                "SettingsForUser"@,
                JsonView::Object(
                    seq![
                        ("NeedsAttribution"@, JsonView::Bool(false)),
                        ("GatherDeviceInfo"@, JsonView::Bool(false)),
                        ("GatherFocusInfo"@, JsonView::Bool(false)),
                    ],
                ),
            ),
            ("LastLoginTime"@, JsonView::Text("2027-01-01T00:00:00.000Z"@)),
            ("EntityToken"@, token_view(p)),
            (
                "TreatmentAssignment"@,
                JsonView::Object(
                    seq![
                        ("Variants"@, JsonView::Array(Seq::empty())),
                        ("Variables"@, JsonView::Array(Seq::empty())),
                    ],
                ),
            ),
        ],
    )
}

/// The token of an account with its entity.
pub open spec fn token_view(p: PlayerModel) -> JsonView {
    JsonView::Object(
        seq![
            ("EntityToken"@, JsonView::Text(p.entity_token)),
            ("TokenExpiration"@, JsonView::Text(p.token_expiration)),
            ("Entity"@, entity_view(p)),
        ],
    )
}

pub fn entity_obj(p: &Player) -> (r: Json)
    ensures
        r@ == entity_view(p@),
{
    let mut o = start();
    json::add_member(&mut o, "Id", json::string(p.entity_id.as_str()));
    json::add_member(&mut o, "Type", json::string(p.entity_type.as_str()));
    json::add_member(&mut o, "TypeString", json::string(p.entity_type.as_str()));
    let r = json::object(o);
    assert(r@->Object_0 =~= entity_view(p@)->Object_0);
    r
}

/// The token of an account with its entity.
pub fn token_obj(p: &Player) -> (r: Json)
    ensures
        r@ == token_view(p@),
{
    let mut o = start();
    json::add_member(&mut o, "EntityToken", json::string(p.entity_token.as_str()));
    json::add_member(&mut o, "TokenExpiration", json::string(p.token_expiration.as_str()));
    json::add_member(&mut o, "Entity", entity_obj(p));
    let r = json::object(o);
    assert(r@->Object_0 =~= token_view(p@)->Object_0);
    r
}

pub fn login_result(p: &Player) -> (r: Json)
    ensures
        r@ == login_view(p@),
{
    let mut settings = start();
    json::add_member(&mut settings, "NeedsAttribution", Json::Bool(false));
    json::add_member(&mut settings, "GatherDeviceInfo", Json::Bool(false));
    json::add_member(&mut settings, "GatherFocusInfo", Json::Bool(false));
    let mut treatment = start();
    json::add_member(&mut treatment, "Variants", empty_array());
    json::add_member(&mut treatment, "Variables", empty_array());
    assert(json::members(settings@) =~= login_view(p@)->Object_0[3].1->Object_0);
    assert(json::members(treatment@) =~= login_view(p@)->Object_0[6].1->Object_0);
    let mut o = start();
    json::add_member(&mut o, "SessionTicket", json::string(p.session_ticket.as_str()));
    json::add_member(&mut o, "PlayFabId", json::string(p.playfab_id.as_str()));
    json::add_member(&mut o, "NewlyCreated", Json::Bool(true));
    json::add_member(&mut o, "SettingsForUser", json::object(settings));
    json::add_member(&mut o, "LastLoginTime", json::string("2027-01-01T00:00:00.000Z"));
    json::add_member(&mut o, "EntityToken", token_obj(p));
    json::add_member(&mut o, "TreatmentAssignment", json::object(treatment));
    let r = json::object(o);
    assert(r@->Object_0 =~= login_view(p@)->Object_0);
    r
}

}
