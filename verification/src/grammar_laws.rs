//! How filters, sort orders and paths are read.
use crate::lobby_client::{ClientView, CreateConfig};
use crate::lobby_filter;
use crate::lobby_filter::{ClauseView, Key, Op, SortView};
use crate::lobby_model::EntityView;
use crate::lobby_requests::Search;
use crate::lobby_update::{DataUpdate, MemberData};
use crate::mesh;
use crate::routes;
use crate::text;
use vstd::prelude::*;

verus! {

// Keys

/// The search properties are named by their numbers from 1 to 30, texts and numbers apart, and the
/// properties of a lobby by what they are.
pub proof fn keys_are_named(n: u32)
    requires
        1 <= n <= 30,
    ensures
        lobby_filter::key_of("string_key"@ + text::decimal(n as nat)) == Some(Key::StringKey(n)),
        lobby_filter::key_of("number_key"@ + text::decimal(n as nat)) == Some(Key::NumberKey(n)),
        lobby_filter::key_of("lobby/memberCount"@) == Some(Key::MemberCount),
        lobby_filter::key_of("lobby/currentMemberCount"@) == Some(Key::MemberCount),
        lobby_filter::key_of("lobby/maxMemberCount"@) == Some(Key::MaxMemberCount),
        lobby_filter::key_of("lobby/memberCountRemaining"@) == Some(Key::MemberCountRemaining),
        lobby_filter::key_of("lobby/membershipLock"@) == Some(Key::MembershipLock),
        lobby_filter::key_of("lobby/amOwner"@) == Some(Key::AmOwner),
        lobby_filter::key_of("lobby/amMember"@) == Some(Key::AmMember),
        lobby_filter::key_of("lobby/amServer"@) == Some(Key::AmServer),
        lobby_filter::key_of("lobbyId"@) == Some(Key::LobbyId),
{
    reveal_strlit("string_key");
    reveal_strlit("number_key");
    let d = text::decimal(n as nat);
    text::decimal_is_number(n as nat);
    let a = "string_key"@ + d;
    let b = "number_key"@ + d;
    assert(a.take(10) =~= "string_key"@);
    assert(a.skip(10) =~= d);
    assert(b.take(10) =~= "number_key"@);
    assert(b.skip(10) =~= d);
    assert(b[0] == 'n');
    if text::begins(b, "string_key"@) {
        assert(b.take(10)[0] == b[0]);
    }
    lemma_lobby_keys();
}

proof fn lemma_no_property(tok: Seq<char>)
    requires
        tok.len() > 0,
        tok[0] == 'l',
    ensures
        lobby_filter::property_number(tok, "string_key"@) is None,
        lobby_filter::property_number(tok, "number_key"@) is None,
{
    reveal_strlit("string_key");
    reveal_strlit("number_key");
    if text::begins(tok, "string_key"@) {
        assert(tok.take(10)[0] == tok[0]);
    }
    if text::begins(tok, "number_key"@) {
        assert(tok.take(10)[0] == tok[0]);
    }
}

proof fn lemma_lobby_keys()
    ensures
        lobby_filter::key_of("lobby/memberCount"@) == Some(Key::MemberCount),
        lobby_filter::key_of("lobby/currentMemberCount"@) == Some(Key::MemberCount),
        lobby_filter::key_of("lobby/maxMemberCount"@) == Some(Key::MaxMemberCount),
        lobby_filter::key_of("lobby/memberCountRemaining"@) == Some(Key::MemberCountRemaining),
        lobby_filter::key_of("lobby/membershipLock"@) == Some(Key::MembershipLock),
        lobby_filter::key_of("lobby/amOwner"@) == Some(Key::AmOwner),
        lobby_filter::key_of("lobby/amMember"@) == Some(Key::AmMember),
        lobby_filter::key_of("lobby/amServer"@) == Some(Key::AmServer),
        lobby_filter::key_of("lobbyId"@) == Some(Key::LobbyId),
{
    reveal_strlit("lobby/memberCount");
    reveal_strlit("lobby/currentMemberCount");
    reveal_strlit("lobby/maxMemberCount");
    reveal_strlit("lobby/memberCountRemaining");
    reveal_strlit("lobby/membershipLock");
    reveal_strlit("lobby/amOwner");
    reveal_strlit("lobby/amMember");
    reveal_strlit("lobby/amServer");
    reveal_strlit("lobbyId");
    lemma_no_property("lobby/memberCount"@);
    lemma_no_property("lobby/currentMemberCount"@);
    lemma_no_property("lobby/maxMemberCount"@);
    lemma_no_property("lobby/memberCountRemaining"@);
    lemma_no_property("lobby/membershipLock"@);
    lemma_no_property("lobby/amOwner"@);
    lemma_no_property("lobby/amMember"@);
    lemma_no_property("lobby/amServer"@);
    lemma_no_property("lobbyId"@);
    assert("lobby/memberCount"@.len() == 17);
    assert("lobby/currentMemberCount"@.len() == 24);
    assert("lobby/maxMemberCount"@.len() == 20);
    assert("lobby/memberCountRemaining"@.len() == 26);
    assert("lobby/membershipLock"@.len() == 20);
    assert("lobby/amOwner"@.len() == 13);
    assert("lobby/amMember"@.len() == 14);
    assert("lobby/amServer"@.len() == 14);
    assert("lobbyId"@.len() == 7);
    assert("lobby/maxMemberCount"@[7] != "lobby/membershipLock"@[7]);
    assert("lobby/amMember"@[8] != "lobby/amServer"@[8]);
}

// Filters

/// Something without white space.
pub open spec fn is_token(s: Seq<char>) -> bool {
    s.len() > 0 && forall|i: int| 0 <= i < s.len() ==> !text::is_ascii_space(#[trigger] s[i])
}

proof fn lemma_token_read(w: Seq<char>, rest: Seq<char>)
    requires
        is_token(w),
        rest.len() == 0 || text::is_ascii_space(rest[0]),
    ensures
        lobby_filter::past_space(w + rest) == w + rest,
        lobby_filter::past_space(seq![' '] + (w + rest)) == w + rest,
        lobby_filter::token(w + rest) == (w, rest),
        lobby_filter::token(seq![' '] + (w + rest)) == (w, rest),
{
    let solid = |c: char| !text::is_ascii_space(c);
    let blank = |c: char| text::is_ascii_space(c);
    let s = w + rest;
    assert(s[0] == w[0]);
    assert(!blank(s[0]));
    text::lemma_span(s, blank, 0);
    assert(s.skip(0) =~= s);
    assert forall|j: int| 0 <= j < w.len() implies solid(#[trigger] s[j]) by {
        assert(s[j] == w[j]);
    }
    if rest.len() > 0 {
        assert(s[w.len() as int] == rest[0]);
    }
    text::lemma_span(s, solid, w.len() as int);
    assert(s.take(w.len() as int) =~= w);
    assert(s.skip(w.len() as int) =~= rest);
    let u = seq![' '] + s;
    assert(blank(u[0]));
    assert(u[1] == s[0]);
    text::lemma_span(u, blank, 1);
    assert(u.skip(1) =~= s);
}

/// A constraint that names its property, a comparison and a quoted value is read as just that,
/// with quotes in the value doubled.
pub proof fn constraint_is_read(key: Seq<char>, op: Seq<char>, value: Seq<char>)
    requires
        is_token(key),
        is_token(op),
        key != "or"@,
        lobby_filter::key_of(key) is Some,
        lobby_filter::op_of(op) is Some,
        forall|raw: Seq<char>|
            lobby_filter::is_supported(
                #[trigger] clause(lobby_filter::key_of(key)->0, lobby_filter::op_of(op)->0, value, raw),
            ),
    ensures
        ({
            let f = lobby_filter::filter_of(
                key + seq![' '] + op + seq![' ', '\''] + lobby_filter::doubled(value) + seq!['\''],
            );
            &&& f.unsupported.len() == 0
            &&& f.clauses.len() == 1
            &&& f.clauses[0].key == lobby_filter::key_of(key)->0
            &&& f.clauses[0].op == lobby_filter::op_of(op)->0
            &&& f.clauses[0].value == value
        }),
{
    let none = Seq::<char>::empty();
    let q = seq!['\''] + lobby_filter::doubled(value) + seq!['\''];
    let r2 = seq![' '] + q;
    let r1 = seq![' '] + (op + r2);
    let s = key + seq![' '] + op + seq![' ', '\''] + lobby_filter::doubled(value) + seq!['\''];
    assert(s =~= key + r1);
    lemma_token_read(key, r1);
    lemma_token_read(op, r2);
    lobby_filter::quoted_value_reads_back(value, none);
    assert(q + none =~= q);
    let blank = |c: char| text::is_ascii_space(c);
    assert(blank(r2[0]));
    assert(r2[1] == q[0]);
    assert(!blank(r2[1]));
    text::lemma_span(r2, blank, 1);
    assert(r2.skip(1) =~= q);
    assert(!blank(q[0]));
    text::lemma_span(q, blank, 0);
    assert(q.skip(0) =~= q);
    assert(lobby_filter::operand(r2) == lobby_filter::operand(q));
    text::lemma_span(none, blank, 0);
    assert(lobby_filter::past_space(none).len() == 0);
    let raw = text::trimmed(s.take(s.len() as int));
    let c = clause(lobby_filter::key_of(key)->0, lobby_filter::op_of(op)->0, value, raw);
    assert(lobby_filter::is_supported(c));
}

pub open spec fn clause(key: Key, op: Op, value: Seq<char>, raw: Seq<char>) -> ClauseView {
    ClauseView { key, op, value, raw }
}

// Sort orders

/// A term of a sort order that names a number and a direction is read as just that; terms that
/// follow each other behind commas are read in their order.
pub proof fn sort_is_read(key: Seq<char>, more: Seq<char>)
    requires
        crate::line_laws::is_solid(key),
        !key.contains(','),
        !text::begins(key, "distance{"@),
        key.len() >= 9,
        lobby_filter::key_of(key) is Some,
        lobby_filter::is_numeric(lobby_filter::key_of(key)->0),
    ensures
        ({
            let down = SortView {
                key: lobby_filter::key_of(key)->0,
                desc: true,
                distance: None,
            };
            let up = SortView { desc: false, ..down };
            &&& lobby_filter::order_of(key + " desc"@).specs == seq![down]
            &&& lobby_filter::order_of(key + " asc"@).specs == seq![up]
            &&& lobby_filter::order_of(key + " desc"@ + seq![','] + more).specs == seq![down]
                + lobby_filter::order_of(more).specs
        }),
{
    reveal_strlit(" desc");
    reveal_strlit(" asc");
    reveal_strlit("desc");
    reveal_strlit("asc");
    assert("asc"@.len() != "desc"@.len());
    assert(" desc"@ =~= seq![' '] + "desc"@);
    assert(" asc"@ =~= seq![' '] + "asc"@);
    lemma_term(key, "desc"@);
    lemma_term(key, "asc"@);
    let d = key + " desc"@;
    let a = key + " asc"@;
    lemma_no_comma(key, " desc"@);
    lemma_no_comma(key, " asc"@);
    text::lemma_find(d, ',', d.len() as int);
    text::lemma_find(a, ',', a.len() as int);
    let s = d + seq![','] + more;
    assert forall|j: int| 0 <= j < d.len() implies s[j] != ',' by {
        assert(s[j] == d[j]);
    }
    assert(s[d.len() as int] == ',');
    text::lemma_find(s, ',', d.len() as int);
    assert(s.take(d.len() as int) =~= d);
    assert(s.skip(d.len() + 1int) =~= more);
}

proof fn lemma_no_comma(key: Seq<char>, dir: Seq<char>)
    requires
        !key.contains(','),
        forall|i: int| 0 <= i < dir.len() ==> #[trigger] dir[i] != ',',
    ensures
        forall|j: int| 0 <= j < (key + dir).len() ==> (key + dir)[j] != ',',
{
    let s = key + dir;
    assert forall|j: int| 0 <= j < s.len() implies s[j] != ',' by {
        if j < key.len() {
            assert(key.contains(key[j]));
        } else {
            assert(s[j] == dir[j - key.len()]);
        }
    }
}

proof fn lemma_term(key: Seq<char>, dir: Seq<char>)
    requires
        crate::line_laws::is_solid(key),
        crate::line_laws::is_solid(dir),
        !text::begins(key, "distance{"@),
        key.len() >= 9,
        dir == "desc"@ || dir == "asc"@,
        lobby_filter::key_of(key) is Some,
        lobby_filter::is_numeric(lobby_filter::key_of(key)->0),
    ensures
        lobby_filter::OrderView::one(key + (seq![' '] + dir)) == (lobby_filter::OrderView {
            specs: seq![
                SortView {
                    key: lobby_filter::key_of(key)->0,
                    desc: dir == "desc"@,
                    distance: None,
                },
            ],
            bad: Seq::empty(),
        }),
{
    let none = Seq::<char>::empty();
    let rest = seq![' '] + (dir + none);
    let term = key + (seq![' '] + dir);
    assert(dir + none =~= dir);
    assert(!text::is_space(key[0]) && !text::is_space(dir[dir.len() - 1]));
    assert(term[0] == key[0] && term.last() == dir.last());
    crate::line_laws::lemma_trimmed(term);
    crate::line_laws::lemma_word(key, rest);
    crate::line_laws::lemma_word(dir, none);
    let blank = |c: char| text::is_space(c);
    let solid = |c: char| !text::is_space(c);
    text::lemma_span(none, blank, 0);
    text::lemma_span(none, solid, 0);
    assert(none.skip(0) =~= none);
    assert(text::word(none).0.len() == 0);
    reveal_strlit("distance{");
    if text::begins(term, "distance{"@) {
        assert(key.take(9) =~= term.take(9));
    }
}

// Paths

/// Where a text stands in another, its letters stand.
proof fn lemma_found_text(s: Seq<char>, p: Seq<char>)
    ensures
        text::find_text(s, p) matches Some(i) ==> 0 <= i && i + p.len() <= s.len() && forall|j: int|
            0 <= j < p.len() ==> s[i + j] == #[trigger] p[j],
    decreases s.len(),
{
    if text::begins(s, p) {
        assert forall|j: int| 0 <= j < p.len() implies s[0 + j] == #[trigger] p[j] by {
            assert(s.take(p.len() as int)[j] == s[j]);
        }
    } else if s.len() > 0 {
        let t = s.drop_first();
        lemma_found_text(t, p);
        if let Some(i) = text::find_text(t, p) {
            assert forall|j: int| 0 <= j < p.len() implies s[i + 1 + j] == #[trigger] p[j] by {
                assert(t[i + j] == p[j]);
            }
        }
    }
}

/// A text is not in another where its first three letters are not.
proof fn lemma_lacks(s: Seq<char>, p: Seq<char>)
    requires
        p.len() >= 3,
        forall|i: int|
            0 <= i <= s.len() - p.len() ==> #[trigger] s[i] != p[0] || s[i + 1] != p[1] || s[i + 2]
                != p[2],
    ensures
        text::find_text(s, p) is None,
{
    lemma_found_text(s, p);
    if let Some(i) = text::find_text(s, p) {
        assert(s[i + 0] == p[0] && s[i + 1] == p[1] && s[i + 2] == p[2]);
    }
}

proof fn lemma_no_underscore(s: Seq<char>)
    requires
        forall|i: int| 0 <= i < s.len() ==> #[trigger] s[i] != '_',
    ensures
        routes::without_underscores(s) == s,
    decreases s.len(),
{
    if s.len() > 0 {
        lemma_no_underscore(s.drop_last());
        assert(s.drop_last().push(s.last()) =~= s);
    }
}

proof fn lemma_bare(path: Seq<char>)
    requires
        path.len() > 1,
        path[0] == '/',
        path[1] != '/',
    ensures
        mesh::bare_path(path) == path.skip(1),
{
    let p = |c: char| c == '/';
    assert(p(path[0]) && !p(path[1]));
    text::lemma_span(path, p, 1);
}

/// Neither a login nor a request for a token, and none of the requests that are told by other
/// words.
proof fn lemma_route(l: Seq<char>)
    requires
        l == "lobby/createandjoinlobby"@ || l == "lobby/joinlobby"@ || l == "lobby/findlobbies"@ || l
            == "lobby/leavelobby"@ || l == "lobby/updatelobby"@ || l == "lobby/getlobby"@,
    ensures
        !text::ends(l, "loginwithsteam"@),
        !routes::holds_text(routes::without_underscores(l), "getentitytoken"@),
        routes::holds_text(l, "createandjoinlobby"@) <==> l == "lobby/createandjoinlobby"@,
        !text::ends(l, "lobby/createlobby"@),
        l != "lobby/createandjoinlobby"@ ==> (text::ends(l, "joinlobby"@) <==> l
            == "lobby/joinlobby"@),
        routes::holds_text(l, "findlobbies"@) <==> l == "lobby/findlobbies"@,
        routes::holds_text(l, "leavelobby"@) <==> l == "lobby/leavelobby"@,
        routes::holds_text(l, "updatelobby"@) <==> l == "lobby/updatelobby"@,
        !routes::holds_text(l, "postlobby"@),
        routes::holds_text(l, "getlobby"@) <==> l == "lobby/getlobby"@,
{
    reveal_strlit("lobby/createandjoinlobby");
    reveal_strlit("lobby/joinlobby");
    reveal_strlit("lobby/findlobbies");
    reveal_strlit("lobby/leavelobby");
    reveal_strlit("lobby/updatelobby");
    reveal_strlit("lobby/getlobby");
    reveal_strlit("loginwithsteam");
    reveal_strlit("getentitytoken");
    reveal_strlit("createandjoinlobby");
    reveal_strlit("lobby/createlobby");
    reveal_strlit("joinlobby");
    reveal_strlit("findlobbies");
    reveal_strlit("leavelobby");
    reveal_strlit("updatelobby");
    reveal_strlit("postlobby");
    reveal_strlit("getlobby");
    lemma_no_underscore(l);
    if text::ends(l, "loginwithsteam"@) {
        assert(l.skip(l.len() - 14)[13] == l[l.len() - 1]);
    }
    if text::ends(l, "lobby/createlobby"@) {
        assert(l.skip(l.len() - 17)[0] == l[l.len() - 17]);
        assert(l.skip(l.len() - 17)[6] == l[l.len() - 11]);
    }
    if text::ends(l, "joinlobby"@) {
        assert(l.skip(l.len() - 9)[0] == l[l.len() - 9]);
        assert(l.skip(l.len() - 9)[8] == l[l.len() - 1]);
    }
    lemma_lacks(l, "getentitytoken"@);
    lemma_lacks(l, "postlobby"@);
    if l == "lobby/createandjoinlobby"@ {
        assert(l.skip(6) =~= "createandjoinlobby"@);
        assert(l.skip(6).take(18) =~= "createandjoinlobby"@);
        text::lemma_find_text(l, "createandjoinlobby"@, 6);
    } else {
        lemma_lacks(l, "createandjoinlobby"@);
    }
    if l == "lobby/joinlobby"@ {
        assert(l.skip(6) =~= "joinlobby"@);
    }
    if l == "lobby/findlobbies"@ {
        assert(l.skip(6).take(11) =~= "findlobbies"@);
        text::lemma_find_text(l, "findlobbies"@, 6);
    } else {
        lemma_lacks(l, "findlobbies"@);
    }
    if l == "lobby/leavelobby"@ {
        assert(l.skip(6).take(10) =~= "leavelobby"@);
        text::lemma_find_text(l, "leavelobby"@, 6);
    } else {
        lemma_lacks(l, "leavelobby"@);
    }
    if l == "lobby/updatelobby"@ {
        assert(l.skip(6).take(11) =~= "updatelobby"@);
        text::lemma_find_text(l, "updatelobby"@, 6);
    } else {
        lemma_lacks(l, "updatelobby"@);
    }
    if l == "lobby/getlobby"@ {
        assert(l.skip(6).take(8) =~= "getlobby"@);
        text::lemma_find_text(l, "getlobby"@, 6);
    } else {
        lemma_lacks(l, "getlobby"@);
    }
}

proof fn lemma_client_paths()
    ensures
        text::lowered(mesh::bare_path("/Lobby/CreateAndJoinLobby"@)) == "lobby/createandjoinlobby"@,
        text::lowered(mesh::bare_path("/Lobby/JoinLobby"@)) == "lobby/joinlobby"@,
        text::lowered(mesh::bare_path("/Lobby/FindLobbies"@)) == "lobby/findlobbies"@,
        text::lowered(mesh::bare_path("/Lobby/LeaveLobby"@)) == "lobby/leavelobby"@,
        text::lowered(mesh::bare_path("/Lobby/UpdateLobby"@)) == "lobby/updatelobby"@,
        text::lowered(mesh::bare_path("/Lobby/GetLobby"@)) == "lobby/getlobby"@,
{
    reveal_strlit("/Lobby/CreateAndJoinLobby");
    reveal_strlit("/Lobby/JoinLobby");
    reveal_strlit("/Lobby/FindLobbies");
    reveal_strlit("/Lobby/LeaveLobby");
    reveal_strlit("/Lobby/UpdateLobby");
    reveal_strlit("/Lobby/GetLobby");
    reveal_strlit("lobby/createandjoinlobby");
    reveal_strlit("lobby/joinlobby");
    reveal_strlit("lobby/findlobbies");
    reveal_strlit("lobby/leavelobby");
    reveal_strlit("lobby/updatelobby");
    reveal_strlit("lobby/getlobby");
    lemma_bare("/Lobby/CreateAndJoinLobby"@);
    lemma_bare("/Lobby/JoinLobby"@);
    lemma_bare("/Lobby/FindLobbies"@);
    lemma_bare("/Lobby/LeaveLobby"@);
    lemma_bare("/Lobby/UpdateLobby"@);
    lemma_bare("/Lobby/GetLobby"@);
    assert(text::lowered("/Lobby/CreateAndJoinLobby"@.skip(1)) =~= "lobby/createandjoinlobby"@);
    assert(text::lowered("/Lobby/JoinLobby"@.skip(1)) =~= "lobby/joinlobby"@);
    assert(text::lowered("/Lobby/FindLobbies"@.skip(1)) =~= "lobby/findlobbies"@);
    assert(text::lowered("/Lobby/LeaveLobby"@.skip(1)) =~= "lobby/leavelobby"@);
    assert(text::lowered("/Lobby/UpdateLobby"@.skip(1)) =~= "lobby/updatelobby"@);
    assert(text::lowered("/Lobby/GetLobby"@.skip(1)) =~= "lobby/getlobby"@);
}

/// Whatever the title asks for, the request goes where the broker takes it for that.
pub proof fn requests_go_where_they_belong(
    c: ClientView,
    e: Option<EntityView>,
    config: Option<CreateConfig>,
    values: Seq<(Seq<char>, Seq<char>)>,
    context: u64,
    connection: Seq<char>,
    search: Search,
    lobby: int,
    data: Option<DataUpdate>,
    member: Option<MemberData>,
)
    ensures
        routes::route_of(c.creating(e, config, values, context).jobs.last().path) is Create,
        routes::route_of(c.joining(e, connection, values).jobs.last().path) is Join,
        routes::route_of(c.finding(e, search, context).jobs.last().path) is Find,
        routes::route_of(c.leaving(lobby).jobs.last().path) is Leave,
        routes::route_of(c.posting(lobby, e, data, member, context).jobs.last().path) is Update,
        routes::route_of("/Lobby/GetLobby"@) is Get,
{
    lemma_client_paths();
    lemma_route("lobby/createandjoinlobby"@);
    lemma_route("lobby/joinlobby"@);
    lemma_route("lobby/findlobbies"@);
    lemma_route("lobby/leavelobby"@);
    lemma_route("lobby/updatelobby"@);
    lemma_route("lobby/getlobby"@);
    lemma_paths_differ();
}

proof fn lemma_paths_differ()
    ensures
        "lobby/createandjoinlobby"@.len() == 24,
        "lobby/joinlobby"@.len() == 15,
        "lobby/findlobbies"@.len() == 17,
        "lobby/leavelobby"@.len() == 16,
        "lobby/updatelobby"@.len() == 17,
        "lobby/getlobby"@.len() == 14,
        "lobby/findlobbies"@ != "lobby/updatelobby"@,
{
    reveal_strlit("lobby/createandjoinlobby");
    reveal_strlit("lobby/joinlobby");
    reveal_strlit("lobby/findlobbies");
    reveal_strlit("lobby/leavelobby");
    reveal_strlit("lobby/updatelobby");
    reveal_strlit("lobby/getlobby");
    assert("lobby/findlobbies"@[6] != "lobby/updatelobby"@[6]);
}

}
