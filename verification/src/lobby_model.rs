//! A lobby as the client knows it: what it reads of it in the broker's replies, what it writes of
//! it into its requests, and what has changed from one look at it to the next.
use crate::assoc;
use crate::broker;
use crate::lobby_json;
use crate::scan;
use crate::text;
use vstd::prelude::*;

verus! {

/// A participant: its identifier and the kind of its account.
pub struct Entity {
    pub id: String,
    pub kind: String,
}

#[verifier::ext_equal]
pub struct EntityView {
    pub id: Seq<char>,
    pub kind: Seq<char>,
}

impl View for Entity {
    type V = EntityView;

    open spec fn view(&self) -> EntityView {
        EntityView { id: self.id@, kind: self.kind@ }
    }
}

impl Entity {
    pub fn copy(&self) -> (r: Entity)
        ensures
            r@ == self@,
    {
        Entity { id: self.id.clone(), kind: self.kind.clone() }
    }
}

pub open spec fn entities(v: Seq<Entity>) -> Seq<EntityView> {
    v.map_values(|e: Entity| e@)
}

/// A participant with the usual kind of account.
pub open spec fn player(id: Seq<char>) -> EntityView {
    EntityView { id, kind: "title_player_account"@ }
}

/// A participant with the usual kind of account.
pub fn player_entity(id: &str) -> (r: Entity)
    ensures
        r@ == player(id@),
{
    Entity { id: id.to_owned(), kind: "title_player_account".to_owned() }
}

/// A participant as the title names it, with what it leaves out filled in.
pub open spec fn named(e: Option<EntityView>) -> EntityView {
    match e {
        Some(e) => EntityView {
            id: if e.id.len() == 0 { "lan-user"@ } else { e.id },
            kind: if e.kind.len() == 0 { "title_player_account"@ } else { e.kind },
        },
        None => player("lan-user"@),
    }
}

pub open spec fn opt_entity(e: Option<Entity>) -> Option<EntityView> {
    match e {
        Some(e) => Some(e@),
        None => None,
    }
}

/// A participant as the title names it, with what it leaves out filled in.
pub fn intern_entity(e: &Option<Entity>) -> (r: Entity)
    ensures
        r@ == named(opt_entity(*e)),
{
    match e {
        Some(e) => Entity {
            id: if text::is_empty(e.id.as_str()) {
                "lan-user".to_owned()
            } else {
                e.id.clone()
            },
            kind: if text::is_empty(e.kind.as_str()) {
                "title_player_account".to_owned()
            } else {
                e.kind.clone()
            },
        },
        None => player_entity("lan-user"),
    }
}

/// Named values.
pub struct Bag {
    pub entries: Vec<(String, String)>,
}

impl View for Bag {
    type V = Seq<(Seq<char>, Seq<char>)>;

    open spec fn view(&self) -> Seq<(Seq<char>, Seq<char>)> {
        assoc::pairs(self.entries@)
    }
}

impl Bag {
    pub fn new() -> (r: Bag)
        ensures
            r@ == Seq::<(Seq<char>, Seq<char>)>::empty(),
    {
        let r = Bag { entries: Vec::new() };
        assert(r@ =~= Seq::empty());
        r
    }

    pub fn copy(&self) -> (r: Bag)
        ensures
            r@ == self@,
    {
        let mut entries: Vec<(String, String)> = Vec::new();
        let mut i: usize = 0;
        while i < self.entries.len()
            invariant
                i <= self.entries@.len(),
                assoc::pairs(entries@) == self@.take(i as int),
            decreases self.entries@.len() - i,
        {
            let ghost sofar = assoc::pairs(entries@);
            let e = (self.entries[i].0.clone(), self.entries[i].1.clone());
            entries.push(e);
            assert(assoc::pairs(entries@) =~= sofar.push((e.0@, e.1@)));
            assert(assoc::pairs(entries@) =~= self@.take(i + 1));
            i += 1;
        }
        assert(self@.take(i as int) =~= self@);
        Bag { entries }
    }
}

/// A value as it is kept: a value with a zero character cannot be kept and is empty.
pub open spec fn kept(v: Seq<char>) -> Seq<char> {
    if v.contains('\0') { Seq::empty() } else { v }
}

/// A value as it is kept.
pub fn keep(v: &str) -> (r: String)
    ensures
        r@ == kept(v@),
{
    let s = text::chars_of(v);
    let k: usize = text::find_char(s.as_slice(), '\0');
    if k < s.len() {
        assert(v@[k as int] == '\0');
        let r = String::new();
        assert(r@ =~= Seq::empty());
        r
    } else {
        assert(!v@.contains('\0'));
        v.to_owned()
    }
}

/// Values with others set among them, one after the other.
pub open spec fn setting(
    m: Seq<(Seq<char>, Seq<char>)>,
    v: Seq<(Seq<char>, Seq<char>)>,
) -> Seq<(Seq<char>, Seq<char>)>
    decreases v.len(),
{
    if v.len() == 0 {
        m
    } else {
        assoc::with(setting(m, v.drop_last()), v.last().0, kept(v.last().1))
    }
}

/// Sets values among others.
pub fn apply_props(m: &mut Bag, v: &Vec<(String, String)>)
    ensures
        final(m)@ == setting(old(m)@, assoc::pairs(v@)),
{
    let ghost all = assoc::pairs(v@);
    let mut i: usize = 0;
    assert(all.take(0) =~= Seq::empty());
    while i < v.len()
        invariant
            i <= v@.len(),
            all == assoc::pairs(v@),
            m@ == setting(old(m)@, all.take(i as int)),
        decreases v@.len() - i,
    {
        assert(all.take(i + 1).drop_last() =~= all.take(i as int));
        assert(all[i as int] == (v@[i as int].0@, v@[i as int].1@));
        assoc::put(&mut m.entries, v[i].0.as_str(), keep(v[i].1.as_str()));
        i += 1;
    }
    assert(all.take(i as int) =~= all);
}

/// Values without some of them.
pub open spec fn dropping(m: Seq<(Seq<char>, Seq<char>)>, keys: Seq<Seq<char>>) -> Seq<
    (Seq<char>, Seq<char>),
>
    decreases keys.len(),
{
    if keys.len() == 0 {
        m
    } else {
        assoc::without(dropping(m, keys.drop_last()), keys.last())
    }
}

/// Removes values.
pub fn drop_props(m: &mut Bag, keys: &Vec<String>)
    ensures
        final(m)@ == dropping(old(m)@, text::views(keys@)),
{
    let ghost all = text::views(keys@);
    let mut i: usize = 0;
    assert(all.take(0) =~= Seq::empty());
    while i < keys.len()
        invariant
            i <= keys@.len(),
            all == text::views(keys@),
            m@ == dropping(old(m)@, all.take(i as int)),
        decreases keys@.len() - i,
    {
        assert(all.take(i + 1).drop_last() =~= all.take(i as int));
        assert(all[i as int] == keys@[i as int]@);
        assoc::drop_key(&mut m.entries, keys[i].as_str());
        i += 1;
    }
    assert(all.take(i as int) =~= all);
}

/// The value under a name, or nothing.
pub open spec fn value_or_empty(m: Seq<(Seq<char>, Seq<char>)>, key: Seq<char>) -> Seq<char> {
    match assoc::lookup(m, key) {
        Some(v) => v,
        None => Seq::empty(),
    }
}

/// What the title relies on of each participant: a platform by name, an account number in decimal
/// digits, and a name.
pub open spec fn ensured(m: Seq<(Seq<char>, Seq<char>)>, id: Seq<char>) -> Seq<
    (Seq<char>, Seq<char>),
> {
    let platform = value_or_empty(m, "member_platform"@);
    let a = if platform.len() == 0 || platform == "1"@ {
        assoc::with(m, "member_platform"@, "Steam"@)
    } else {
        m
    };
    let account = value_or_empty(a, "member_platform_account_id"@);
    let b = assoc::with(
        a,
        "member_platform_account_id"@,
        if broker::is_account_id(account) { account } else { broker::account_id(id) },
    );
    if assoc::lookup(b, "member_platform_user_name"@) is None {
        assoc::with(b, "member_platform_user_name"@, "LAN"@)
    } else {
        b
    }
}

/// The value under a name, or nothing.
fn get_or_empty(m: &Bag, key: &str) -> (r: String)
    ensures
        r@ == value_or_empty(m@, key@),
{
    match assoc::get(&m.entries, key) {
        Some(v) => v.clone(),
        None => {
            let r = String::new();
            assert(r@ =~= Seq::empty());
            r
        },
    }
}

/// Fills in what the title relies on of a participant.
pub fn ensure_member_props(m: &mut Bag, id: &str)
    ensures
        final(m)@ == ensured(old(m)@, id@),
{
    let platform = get_or_empty(m, "member_platform");
    if text::is_empty(platform.as_str()) || text::eq(platform.as_str(), "1") {
        assoc::put(&mut m.entries, "member_platform", "Steam".to_owned());
    }
    let account = get_or_empty(m, "member_platform_account_id");
    let number = if broker::all_digits(account.as_str()) {
        account
    } else {
        broker::decimal_account_id(id)
    };
    assoc::put(&mut m.entries, "member_platform_account_id", number);
    if assoc::get(&m.entries, "member_platform_user_name").is_none() {
        assoc::put(&mut m.entries, "member_platform_user_name", "LAN".to_owned());
    }
}

/// The bytes of a text.
pub open spec fn utf8(s: Seq<char>) -> Seq<u8> {
    vstd::utf8::encode_utf8(s)
}

/// Writes a text.
pub fn push_str(out: &mut Vec<u8>, s: &str)
    ensures
        final(out)@ == old(out)@ + utf8(s@),
{
    let ghost before = out@;
    out.extend_from_slice(s.as_bytes());
    assert(out@ =~= before + utf8(s@));
}

/// A text as it is written inside a string.
pub open spec fn quoted(s: Seq<char>) -> Seq<u8> {
    lobby_json::escaped(utf8(s))
}

/// Writes a text as it stands inside a string.
pub fn push_quoted(out: &mut Vec<u8>, s: &str)
    ensures
        final(out)@ == old(out)@ + quoted(s@),
{
    lobby_json::json_escape(out, s.as_bytes());
}

/// A named value as a member of an object.
pub open spec fn member_text(k: Seq<char>, v: Seq<char>) -> Seq<u8> {
    utf8("\""@) + utf8(k) + utf8("\":\""@) + quoted(v) + utf8("\""@)
}

/// Named values as the members of an object.
pub open spec fn members_text(m: Seq<(Seq<char>, Seq<char>)>) -> Seq<u8>
    decreases m.len(),
{
    if m.len() == 0 {
        Seq::empty()
    } else if m.len() == 1 {
        member_text(m[0].0, m[0].1)
    } else {
        members_text(m.drop_last()) + utf8(","@) + member_text(m.last().0, m.last().1)
    }
}

/// Named values as an object.
pub open spec fn object_text(m: Seq<(Seq<char>, Seq<char>)>) -> Seq<u8> {
    utf8("{"@) + members_text(m) + utf8("}"@)
}

/// Writes named values as an object.
pub fn push_object(out: &mut Vec<u8>, m: &Vec<(String, String)>)
    ensures
        final(out)@ == old(out)@ + object_text(assoc::pairs(m@)),
{
    let ghost all = assoc::pairs(m@);
    push_str(out, "{");
    let ghost start = out@;
    let mut i: usize = 0;
    assert(all.take(0) =~= Seq::empty());
    assert(out@ =~= start + members_text(all.take(0)));
    while i < m.len()
        invariant
            i <= m@.len(),
            all == assoc::pairs(m@),
            out@ == start + members_text(all.take(i as int)),
        decreases m@.len() - i,
    {
        let ghost sofar = all.take(i as int);
        let ghost next = all.take(i + 1);
        assert(next.drop_last() =~= sofar);
        assert(next.last() == (m@[i as int].0@, m@[i as int].1@));
        if i > 0 {
            push_str(out, ",");
        } else {
            assert(members_text(sofar) =~= Seq::empty());
        }
        push_str(out, "\"");
        push_str(out, m[i].0.as_str());
        push_str(out, "\":\"");
        push_quoted(out, m[i].1.as_str());
        push_str(out, "\"");
        assert(out@ =~= start + members_text(next));
        i += 1;
    }
    assert(all.take(i as int) =~= all);
    push_str(out, "}");
    assert(out@ =~= old(out)@ + object_text(all));
}

/// The values of a participant that go to the broker.
pub open spec fn member_values(id: Seq<char>, m: Seq<(Seq<char>, Seq<char>)>) -> Seq<
    (Seq<char>, Seq<char>),
> {
    ensured(setting(Seq::empty(), m), id)
}

/// The values of a participant that go to the broker.
pub fn member_bag(id: &str, m: &Vec<(String, String)>) -> (r: Bag)
    ensures
        r@ == member_values(id@, assoc::pairs(m@)),
{
    let mut r = Bag::new();
    apply_props(&mut r, m);
    ensure_member_props(&mut r, id);
    r
}

/// A lobby. Its number is how the title names it.
pub struct Lobby {
    pub number: u64,
    pub id: String,
    pub connection: String,
    pub owner: Entity,
    /// The service knows an owner.
    pub has_owner: bool,
    pub max_players: u32,
    pub props: Bag,
    pub search: Bag,
    pub member_props: Vec<(String, Bag)>,
    pub members: Vec<Entity>,
    /// 0 is unlocked, 1 is locked.
    pub membership_lock: i32,
    /// 0 is public, 1 is for friends, 2 is private.
    pub access_policy: u32,
    /// The title was told of the lock.
    pub lock_known: bool,
    /// The participants that the title was told of.
    pub announced: Vec<String>,
    /// The lobby is not there yet: its creation or joining is under way.
    pub pending: bool,
    /// The lobby was left or is gone.
    pub left: bool,
    /// The broker is asked for the lobby again and again.
    pub polled: bool,
    /// The broker was asked for the lobby and has not replied.
    pub asked: bool,
}

#[verifier::ext_equal]
pub struct LobbyView {
    pub number: u64,
    pub id: Seq<char>,
    pub connection: Seq<char>,
    pub owner: EntityView,
    pub has_owner: bool,
    pub max_players: u32,
    pub props: Seq<(Seq<char>, Seq<char>)>,
    pub search: Seq<(Seq<char>, Seq<char>)>,
    pub member_props: Seq<(Seq<char>, Seq<(Seq<char>, Seq<char>)>)>,
    pub members: Seq<EntityView>,
    pub membership_lock: i32,
    pub access_policy: u32,
    pub lock_known: bool,
    pub announced: Seq<Seq<char>>,
    pub pending: bool,
    pub left: bool,
    pub polled: bool,
    pub asked: bool,
}

impl View for Lobby {
    type V = LobbyView;

    open spec fn view(&self) -> LobbyView {
        LobbyView {
            number: self.number,
            id: self.id@,
            connection: self.connection@,
            owner: self.owner@,
            has_owner: self.has_owner,
            max_players: self.max_players,
            props: self.props@,
            search: self.search@,
            member_props: assoc::pairs(self.member_props@),
            members: entities(self.members@),
            membership_lock: self.membership_lock,
            access_policy: self.access_policy,
            lock_known: self.lock_known,
            announced: text::views(self.announced@),
            pending: self.pending,
            left: self.left,
            polled: self.polled,
            asked: self.asked,
        }
    }
}

/// A lobby of which nothing is known.
pub open spec fn blank_lobby(number: u64) -> LobbyView {
    LobbyView {
        number,
        id: Seq::empty(),
        connection: Seq::empty(),
        owner: player("owner"@),
        has_owner: true,
        max_players: 8,
        props: Seq::empty(),
        search: Seq::empty(),
        member_props: Seq::empty(),
        members: Seq::empty(),
        membership_lock: 0,
        access_policy: 0,
        lock_known: false,
        announced: Seq::empty(),
        pending: true,
        left: false,
        polled: false,
        asked: false,
    }
}

impl Lobby {
    /// A lobby of which nothing is known.
    pub fn blank(number: u64) -> (r: Lobby)
        ensures
            r@ == blank_lobby(number),
    {
        let r = Lobby {
            number,
            id: String::new(),
            connection: String::new(),
            owner: player_entity("owner"),
            has_owner: true,
            max_players: 8,
            props: Bag::new(),
            search: Bag::new(),
            member_props: Vec::new(),
            members: Vec::new(),
            membership_lock: 0,
            access_policy: 0,
            lock_known: false,
            announced: Vec::new(),
            pending: true,
            left: false,
            polled: false,
            asked: false,
        };
        assert(r@.id =~= Seq::empty());
        assert(r@.connection =~= Seq::empty());
        assert(r@.member_props =~= Seq::empty());
        assert(r@.members =~= Seq::empty());
        assert(r@.announced =~= Seq::empty());
        r
    }
}

impl Lobby {
    pub fn copy(&self) -> (r: Lobby)
        ensures
            r@ == self@,
    {
        let mut member_props: Vec<(String, Bag)> = Vec::new();
        let mut i: usize = 0;
        while i < self.member_props.len()
            invariant
                i <= self.member_props@.len(),
                assoc::pairs(member_props@) == self@.member_props.take(i as int),
            decreases self.member_props@.len() - i,
        {
            let ghost sofar = assoc::pairs(member_props@);
            let e = (self.member_props[i].0.clone(), self.member_props[i].1.copy());
            member_props.push(e);
            assert(assoc::pairs(member_props@) =~= sofar.push((e.0@, e.1@)));
            assert(assoc::pairs(member_props@) =~= self@.member_props.take(i + 1));
            i += 1;
        }
        assert(self@.member_props.take(i as int) =~= self@.member_props);
        let mut members: Vec<Entity> = Vec::new();
        let mut j: usize = 0;
        while j < self.members.len()
            invariant
                j <= self.members@.len(),
                entities(members@) == self@.members.take(j as int),
            decreases self.members@.len() - j,
        {
            let ghost sofar = entities(members@);
            let e = self.members[j].copy();
            members.push(e);
            assert(entities(members@) =~= sofar.push(e@));
            assert(entities(members@) =~= self@.members.take(j + 1));
            j += 1;
        }
        assert(self@.members.take(j as int) =~= self@.members);
        let mut announced: Vec<String> = Vec::new();
        let mut k: usize = 0;
        while k < self.announced.len()
            invariant
                k <= self.announced@.len(),
                text::views(announced@) == self@.announced.take(k as int),
            decreases self.announced@.len() - k,
        {
            let ghost sofar = text::views(announced@);
            let e = self.announced[k].clone();
            announced.push(e);
            assert(text::views(announced@) =~= sofar.push(e@));
            assert(text::views(announced@) =~= self@.announced.take(k + 1));
            k += 1;
        }
        assert(self@.announced.take(k as int) =~= self@.announced);
        Lobby {
            number: self.number,
            id: self.id.clone(),
            connection: self.connection.clone(),
            owner: self.owner.copy(),
            has_owner: self.has_owner,
            max_players: self.max_players,
            props: self.props.copy(),
            search: self.search.copy(),
            member_props,
            members,
            membership_lock: self.membership_lock,
            access_policy: self.access_policy,
            lock_known: self.lock_known,
            announced,
            pending: self.pending,
            left: self.left,
            polled: self.polled,
            asked: self.asked,
        }
    }
}

/// The lock that a word stands for.
pub open spec fn lock_of(s: Seq<char>) -> i32 {
    if text::lowered(s) == "locked"@ || s == "1"@ { 1 } else { 0 }
}

/// Reads a lock.
pub fn parse_membership_lock(s: &str) -> (r: i32)
    ensures
        r == lock_of(s@),
{
    let low = text::to_lowered(text::chars_of(s).as_slice());
    if text::is_text(low.as_slice(), "locked") || text::eq(s, "1") {
        1
    } else {
        0
    }
}

/// The access policy that a word stands for.
pub open spec fn policy_of(s: Seq<char>) -> u32 {
    if text::lowered(s) == "friends"@ {
        1
    } else if text::lowered(s) == "private"@ {
        2
    } else {
        0
    }
}

/// Reads an access policy.
pub fn parse_access_policy(s: &str) -> (r: u32)
    ensures
        r == policy_of(s@),
{
    let low = text::to_lowered(text::chars_of(s).as_slice());
    if text::is_text(low.as_slice(), "friends") {
        1
    } else if text::is_text(low.as_slice(), "private") {
        2
    } else {
        0
    }
}

/// The word for an access policy.
pub open spec fn policy_word(n: u32) -> Seq<char> {
    if n == 1 {
        "Friends"@
    } else if n == 2 {
        "Private"@
    } else {
        "Public"@
    }
}

/// The word for an access policy.
pub fn access_policy_name(n: u32) -> (r: &'static str)
    ensures
        r@ == policy_word(n),
{
    if n == 1 {
        "Friends"
    } else if n == 2 {
        "Private"
    } else {
        "Public"
    }
}

pub open spec fn nonempty(t: Option<Seq<char>>) -> Option<Seq<char>> {
    match t {
        Some(t) => if t.len() > 0 { Some(t) } else { None },
        None => None,
    }
}

/// The identifier of a participant in the object that tells of it.
pub open spec fn member_id_in(o: Seq<char>) -> Option<Seq<char>> {
    let b = utf8(o);
    match lobby_json::field(b, "Id"@) {
        Some(t) => Some(t),
        None => match lobby_json::field(b, "id"@) {
            Some(t) => Some(t),
            None => match nonempty(
                assoc::lookup(lobby_json::object_field(b, "MemberEntity"@), "Id"@),
            ) {
                Some(t) => Some(t),
                None => match scan::piece_after(o, "\"Id\":\""@) {
                    Some(r) => Some(r.take(text::find(r, '"'))),
                    None => None,
                },
            },
        },
    }
}

/// Reads the identifier of a participant in the object that tells of it.
fn read_member_id(o: &str) -> (r: Option<String>)
    ensures
        scan::opt_text(r) == member_id_in(o@),
{
    let b = o.as_bytes();
    if let Some(t) = lobby_json::json_str(b, "Id") {
        return Some(t);
    }
    if let Some(t) = lobby_json::json_str(b, "id") {
        return Some(t);
    }
    let entity = lobby_json::json_obj(b, "MemberEntity");
    if let Some(t) = assoc::get(&entity, "Id") {
        if !text::is_empty(t.as_str()) {
            return Some(t.clone());
        }
    }
    let all = text::chars_of(o);
    match scan::cut_after(all.as_slice(), text::chars_of("\"Id\":\"").as_slice()) {
        Some(rest) => Some(text::text_of(text::head(rest, text::find_char(rest, '"')))),
        None => None,
    }
}

/// The participants that some objects tell of.
pub open spec fn told_members(v: Seq<Seq<char>>) -> Seq<EntityView>
    decreases v.len(),
{
    if v.len() == 0 {
        Seq::empty()
    } else {
        match member_id_in(v.last()) {
            Some(id) => told_members(v.drop_last()).push(player(kept(id))),
            None => told_members(v.drop_last()),
        }
    }
}

/// The values of the participants that some objects tell of.
pub open spec fn told_values(v: Seq<Seq<char>>) -> Seq<(Seq<char>, Seq<(Seq<char>, Seq<char>)>)>
    decreases v.len(),
{
    if v.len() == 0 {
        Seq::empty()
    } else {
        match member_id_in(v.last()) {
            Some(id) => assoc::with(
                told_values(v.drop_last()),
                id,
                member_values(id, lobby_json::object_field(utf8(v.last()), "MemberData"@)),
            ),
            None => told_values(v.drop_last()),
        }
    }
}

/// The lobby that a reply tells of. A reply without an identifier tells of none, nor does one
/// whose identifier or connection cannot be kept.
pub open spec fn told_lobby(t: Seq<char>, number: u64) -> Option<LobbyView> {
    let b = utf8(t);
    match lobby_json::field(b, "LobbyId"@) {
        Some(id) => {
            let connection = match lobby_json::field(b, "ConnectionString"@) {
                Some(c) => c,
                None => "lan."@ + id,
            };
            let objects = scan::listed_objects(t, "Members"@);
            let owner = nonempty(assoc::lookup(lobby_json::object_field(b, "Owner"@), "Id"@));
            if id.contains('\0') || connection.contains('\0') {
                None
            } else {
                Some(
                    LobbyView {
                        id,
                        connection,
                        owner: match owner {
                            Some(o) => player(kept(o)),
                            None => player("owner"@),
                        },
                        has_owner: owner is Some,
                        max_players: lobby_json::told_max(b),
                        props: setting(
                            Seq::empty(),
                            lobby_json::object_field(b, "LobbyData"@),
                        ),
                        search: setting(
                            Seq::empty(),
                            lobby_json::object_field(b, "SearchData"@),
                        ),
                        member_props: told_values(objects),
                        members: told_members(objects),
                        membership_lock: match lobby_json::field(b, "MembershipLock"@) {
                            Some(s) => lock_of(s),
                            None => 0,
                        },
                        access_policy: match lobby_json::field(b, "AccessPolicy"@) {
                            Some(s) => policy_of(s),
                            None => 0,
                        },
                        ..blank_lobby(number)
                    },
                )
            }
        },
        None => None,
    }
}

/// Whether a text can be kept.
pub fn can_keep(s: &str) -> (r: bool)
    ensures
        r == !s@.contains('\0'),
{
    let v = text::chars_of(s);
    let k: usize = text::find_char(v.as_slice(), '\0');
    if k < v.len() {
        assert(s@[k as int] == '\0');
        false
    } else {
        true
    }
}

/// Reads a lobby out of a reply.
pub fn lobby_from_json(t: &str, number: u64) -> (r: Option<Lobby>)
    ensures
        match r {
            Some(l) => told_lobby(t@, number) == Some(l@),
            None => told_lobby(t@, number) is None,
        },
{
    let b = t.as_bytes();
    let id = match lobby_json::json_str(b, "LobbyId") {
        Some(id) => id,
        None => {
            return None;
        },
    };
    let connection = match lobby_json::json_str(b, "ConnectionString") {
        Some(c) => c,
        None => {
            let mut c = String::new();
            c.append("lan.");
            c.append(id.as_str());
            assert(c@ =~= "lan."@ + id@);
            c
        },
    };
    if !can_keep(id.as_str()) || !can_keep(connection.as_str()) {
        return None;
    }
    let mut props = Bag::new();
    apply_props(&mut props, &lobby_json::json_obj(b, "LobbyData"));
    let mut search = Bag::new();
    apply_props(&mut search, &lobby_json::json_obj(b, "SearchData"));
    let objects = scan::json_arr_objects(t, "Members");
    let ghost all = text::views(objects@);
    let mut members: Vec<Entity> = Vec::new();
    let mut member_props: Vec<(String, Bag)> = Vec::new();
    let mut i: usize = 0;
    assert(all.take(0) =~= Seq::empty());
    assert(entities(members@) =~= Seq::empty());
    assert(assoc::pairs(member_props@) =~= Seq::empty());
    while i < objects.len()
        invariant
            i <= objects@.len(),
            all == text::views(objects@),
            entities(members@) == told_members(all.take(i as int)),
            assoc::pairs(member_props@) == told_values(all.take(i as int)),
        decreases objects@.len() - i,
    {
        assert(all.take(i + 1).drop_last() =~= all.take(i as int));
        assert(all[i as int] == objects@[i as int]@);
        if let Some(m) = read_member_id(objects[i].as_str()) {
            let ghost sofar = entities(members@);
            let e = player_entity(keep(m.as_str()).as_str());
            members.push(e);
            assert(entities(members@) =~= sofar.push(e@));
            let data = lobby_json::json_obj(objects[i].as_str().as_bytes(), "MemberData");
            let bag = member_bag(m.as_str(), &data);
            assoc::put(&mut member_props, m.as_str(), bag);
        }
        i += 1;
    }
    assert(all.take(i as int) =~= all);
    let membership_lock: i32 = match lobby_json::json_str(b, "MembershipLock") {
        Some(s) => parse_membership_lock(s.as_str()),
        None => 0,
    };
    let access_policy: u32 = match lobby_json::json_str(b, "AccessPolicy") {
        Some(s) => parse_access_policy(s.as_str()),
        None => 0,
    };
    let owners = lobby_json::json_obj(b, "Owner");
    let mut has_owner = false;
    let owner = match assoc::get(&owners, "Id") {
        Some(o) => if text::is_empty(o.as_str()) {
            player_entity("owner")
        } else {
            has_owner = true;
            player_entity(keep(o.as_str()).as_str())
        },
        None => player_entity("owner"),
    };
    let mut l = Lobby::blank(number);
    l.id = id;
    l.connection = connection;
    l.owner = owner;
    l.has_owner = has_owner;
    l.max_players = lobby_json::json_max_players(b);
    l.props = props;
    l.search = search;
    l.member_props = member_props;
    l.members = members;
    l.membership_lock = membership_lock;
    l.access_policy = access_policy;
    Some(l)
}

}
