//! What a search gives and how its rows lead on.
use crate::assoc;
use crate::broker;
use crate::broker::{AppModel, LobbyState};
use crate::json;
use crate::json::JsonView;
use crate::lobbies;
use crate::lobby_filter;
use crate::lobby_filter::{ClauseView, FilterView, Key, LobbyModel, NumeralsView, Op, SortView};
use crate::lobby_laws;
use crate::numeral;
use crate::numeral::Real;
use crate::search;
use crate::text;
use vstd::prelude::*;

verus! {

// Rows

/// No two lobbies are entered by the same connection string.
pub open spec fn connections_differ(all: Seq<(Seq<char>, LobbyState)>) -> bool {
    forall|i: int, j: int|
        0 <= i < j < all.len() ==> (#[trigger] all[i]).1.connection != (#[trigger] all[j]).1.connection
}

/// The rows that a search is answered with.
pub open spec fn rows(
    a: AppModel,
    body: JsonView,
    viewer: Option<Seq<char>>,
    n: NumeralsView,
) -> Seq<JsonView> {
    match search::search_view(a, body, viewer, n).field("Lobbies"@) {
        Some(JsonView::Array(v)) => v,
        _ => Seq::empty(),
    }
}

proof fn lemma_rows(a: AppModel, body: JsonView, viewer: Option<Seq<char>>, n: NumeralsView)
    ensures
        rows(a, body, viewer, n) == search::found(a, body, viewer, n).map_values(
            |l: LobbyState| search::result_row(l),
        ),
{
    let o = search::search_view(a, body, viewer, n)->Object_0;
    assert(o[0].0 == "Lobbies"@);
    assoc::lemma_place_is(o, "Lobbies"@, 0);
}

proof fn lemma_row_names()
    ensures
        "LobbyId"@.len() == 7,
        "ConnectionString"@.len() == 16,
        "CurrentPlayers"@.len() == 14,
        "MaxPlayers"@.len() == 10,
        "MembershipLock"@.len() == 14,
        "SearchData"@.len() == 10,
        "Owner"@.len() == 5,
        "CurrentPlayers"@ != "MembershipLock"@,
        "MaxPlayers"@ != "SearchData"@,
{
    reveal_strlit("LobbyId");
    reveal_strlit("ConnectionString");
    reveal_strlit("CurrentPlayers");
    reveal_strlit("MaxPlayers");
    reveal_strlit("MembershipLock");
    reveal_strlit("SearchData");
    reveal_strlit("Owner");
    assert("CurrentPlayers"@[0] != "MembershipLock"@[0]);
    assert("MaxPlayers"@[0] != "SearchData"@[0]);
}

proof fn lemma_row(l: LobbyState)
    ensures
        ({
            let row = search::result_row(l);
            &&& row.text_field("LobbyId"@) == Some(l.id)
            &&& row.text_field("ConnectionString"@) == Some(l.connection)
            &&& row.field("CurrentPlayers"@) == Some(json::int_view(l.members.len() as int))
            &&& row.field("MaxPlayers"@) == Some(json::int_view(l.max_players as int))
            &&& row.text_field("MembershipLock"@) == Some(l.membership_lock)
            &&& row.field("SearchData"@) == Some(JsonView::Object(l.found_data()))
            &&& row.field("Owner"@) == Some(l.owner)
        }),
{
    lemma_row_names();
    reveal_with_fuel(assoc::place, 8);
}

proof fn lemma_accepted(
    all: Seq<(Seq<char>, LobbyState)>,
    f: FilterView,
    viewer: Option<Seq<char>>,
    n: NumeralsView,
    l: LobbyState,
)
    ensures
        search::accepted(all, f, viewer, n).contains(l) <==> f.accepts(
            search::seen_lobby(l, viewer),
            n,
        ) && exists|k: int| 0 <= k < all.len() && (#[trigger] all[k]).1 == l,
    decreases all.len(),
{
    let got = search::accepted(all, f, viewer, n);
    if all.len() > 0 {
        let t = all.drop_last();
        let rest = search::accepted(t, f, viewer, n);
        lemma_accepted(t, f, viewer, n, l);
        if got.contains(l) {
            let i = choose|i: int| 0 <= i < got.len() && got[i] == l;
            if i < rest.len() {
                assert(rest[i] == l);
                let k = choose|k: int| 0 <= k < t.len() && (#[trigger] t[k]).1 == l;
                assert(all[k].1 == l);
            } else {
                assert(all[all.len() - 1].1 == l);
            }
        }
        if f.accepts(search::seen_lobby(l, viewer), n) && exists|k: int|
            0 <= k < all.len() && (#[trigger] all[k]).1 == l {
            let k = choose|k: int| 0 <= k < all.len() && (#[trigger] all[k]).1 == l;
            if k < t.len() {
                assert(t[k].1 == l);
                let i = choose|i: int| 0 <= i < rest.len() && rest[i] == l;
                assert(got[i] == l);
            } else {
                assert(got[got.len() - 1] == l);
            }
        }
    }
}

proof fn lemma_ordered_contains(
    row: Seq<LobbyState>,
    specs: Seq<SortView>,
    viewer: Option<Seq<char>>,
    n: NumeralsView,
    l: LobbyState,
)
    ensures
        search::ordered(row, specs, viewer, n).contains(l) <==> row.contains(l),
{
    search::sorting_keeps_rows(row, specs, viewer, n);
    let out = search::ordered(row, specs, viewer, n);
    row.to_multiset_ensures();
    out.to_multiset_ensures();
    assert(out.contains(l) <==> out.to_multiset().count(l) > 0);
    assert(row.contains(l) <==> row.to_multiset().count(l) > 0);
}

/// Every constraint of a filter holds of a lobby, and there is none that was not understood.
pub open spec fn meets(l: LobbyState, f: FilterView, viewer: Option<Seq<char>>, n: NumeralsView) -> bool {
    &&& f.unsupported.len() == 0
    &&& forall|i: int|
        0 <= i < f.clauses.len() ==> lobby_filter::holds(
            #[trigger] f.clauses[i],
            search::seen_lobby(l, viewer),
            n,
        ) == Some(true)
}

/// Whatever a search gives is a lobby of the broker that meets every constraint of the filter. A
/// search that asks for no number of rows and for no friends gives all of them.
pub proof fn search_gives_what_meets_the_filter(
    a: AppModel,
    body: JsonView,
    viewer: Option<Seq<char>>,
    n: NumeralsView,
    l: LobbyState,
)
    ensures
        ({
            let f = lobby_filter::filter_of(search::filter_text(body));
            let known = exists|k: int| 0 <= k < a.lobbies.len() && (#[trigger] a.lobbies[k]).1 == l;
            let given = search::found(a, body, viewer, n).contains(l);
            &&& given ==> known && meets(l, f, viewer, n)
            &&& known && meets(l, f, viewer, n) && body.either("FriendsFilter"@, "friendsFilter"@)
                is None && search::asked_count(body) is None ==> given
        }),
{
    let f = lobby_filter::filter_of(search::filter_text(body));
    let specs = lobby_filter::order_of(search::sort_text(body)).specs;
    let all = search::accepted(a.lobbies, f, viewer, n);
    lemma_accepted(a.lobbies, f, viewer, n, l);
    lemma_ordered_contains(all, specs, viewer, n, l);
    lemma_ordered_contains(Seq::empty(), specs, viewer, n, l);
    let given = search::found(a, body, viewer, n);
    let row = search::ordered(
        if search::asks_for_friends(body) { Seq::empty() } else { all },
        specs,
        viewer,
        n,
    );
    if given.contains(l) {
        let i = choose|i: int| 0 <= i < given.len() && given[i] == l;
        assert(row[i] == l);
        assert(row.contains(l));
    }
}

/// A search that asks for a number of rows gets the first so many of what it would get without.
pub proof fn count_takes_the_first(row: Seq<LobbyState>, c: int, i: int)
    ensures
        search::cut(row, None) == row,
        c <= 0 ==> search::cut(row, Some(c)) == row,
        0 < c <= 1000 && c <= row.len() ==> search::cut(row, Some(c)).len() == c,
        c > 1000 && row.len() >= 1000 ==> search::cut(row, Some(c)).len() == 1000,
        c >= row.len() && row.len() <= 1000 ==> search::cut(row, Some(c)) == row,
        0 <= i < search::cut(row, Some(c)).len() ==> search::cut(row, Some(c))[i] == row[i],
{
}

/// Every row of a search leads into the lobby that it is about: no lobby but that one is entered by
/// its connection string, and joining with it is never answered with 404.
pub proof fn found_lobby_can_be_joined(
    a: AppModel,
    body: JsonView,
    viewer: Option<Seq<char>>,
    n: NumeralsView,
    i: int,
    ask: JsonView,
    headers: Seq<(Seq<char>, Seq<char>)>,
)
    requires
        connections_differ(a.lobbies),
        0 <= i < rows(a, body, viewer, n).len(),
        ask.text_either("ConnectionString"@, "connectionString"@) == rows(
            a,
            body,
            viewer,
            n,
        )[i].text_field("ConnectionString"@),
    ensures
        ({
            let row = rows(a, body, viewer, n)[i];
            let l = search::found(a, body, viewer, n)[i];
            let place = lobbies::connection_place(
                a.lobbies,
                row.text_field("ConnectionString"@)->0,
            );
            &&& rows(a, body, viewer, n).len() == search::found(a, body, viewer, n).len()
            &&& row.text_field("ConnectionString"@) is Some
            &&& place is Some
            &&& 0 <= place->0 < a.lobbies.len()
            &&& a.lobbies[place->0].1 == l
            &&& lobbies::join(a, ask, headers).1.status != 404
        }),
{
    lemma_rows(a, body, viewer, n);
    let l = search::found(a, body, viewer, n)[i];
    assert(search::found(a, body, viewer, n).contains(l));
    search_gives_what_meets_the_filter(a, body, viewer, n, l);
    lemma_row(l);
    let k = choose|k: int| 0 <= k < a.lobbies.len() && (#[trigger] a.lobbies[k]).1 == l;
    lobbies::lemma_connection_place(a.lobbies, l.connection);
    let place = lobbies::connection_place(a.lobbies, l.connection);
    if place is None {
        assert(a.lobbies[k].1.connection == l.connection);
    }
    reveal_strlit("LobbyMemberLimitExceeded");
    reveal_strlit("LobbyNotFound");
    assert("LobbyMemberLimitExceeded"@.len() != "LobbyNotFound"@.len());
}

/// A row of a search says of its lobby what a look at the lobby says: its names, how many are in
/// it and may be, its lock and its owner.
pub proof fn row_says_what_is_shown(
    a: AppModel,
    body: JsonView,
    viewer: Option<Seq<char>>,
    n: NumeralsView,
    i: int,
)
    requires
        0 <= i < rows(a, body, viewer, n).len(),
    ensures
        ({
            let row = rows(a, body, viewer, n)[i];
            let l = search::found(a, body, viewer, n)[i];
            let seen = lobbies::shown(l);
            &&& row.text_field("LobbyId"@) == Some(l.id)
            &&& row.field("LobbyId"@) == seen.field("LobbyId"@)
            &&& row.field("ConnectionString"@) == seen.field("ConnectionString"@)
            &&& row.field("CurrentPlayers"@) == seen.field("CurrentPlayers"@)
            &&& row.field("MaxPlayers"@) == seen.field("MaxPlayers"@)
            &&& row.field("MembershipLock"@) == seen.field("MembershipLock"@)
            &&& row.field("Owner"@) == seen.field("Owner"@)
        }),
{
    lemma_rows(a, body, viewer, n);
    let l = search::found(a, body, viewer, n)[i];
    lemma_row(l);
    lobby_laws::lobby_is_shown(l);
}

/// A row of a search shows the search properties of its lobby. Only the description of the leader
/// may be another, and where the lobby gives no owner under the eighth name, its owner stands
/// there.
pub proof fn row_shows_search_data(l: LobbyState, key: Seq<char>)
    ensures
        ({
            let row = search::result_row(l);
            let own = assoc::lookup(l.search_data, key);
            &&& row.field("SearchData"@) matches Some(JsonView::Object(sd))
            &&& key != "string_key5"@ && key != "string_key8"@ ==> assoc::lookup(sd, key) == own
            &&& key == "string_key8"@ && own is Some ==> assoc::lookup(sd, key) == own
            &&& key == "string_key8"@ && own is None && l.owner_id().len() > 0 ==> assoc::lookup(
                sd,
                key,
            ) == Some(JsonView::Text(l.owner_id()))
            &&& key == "string_key5"@ ==> assoc::lookup(sd, key) is Some
        }),
{
    lemma_row(l);
    reveal_strlit("string_key5");
    reveal_strlit("string_key8");
    assert("string_key5"@[10] != "string_key8"@[10]);
    let leader = JsonView::Text(json::json_flat_object(l.leader_object()));
    let own = assoc::lookup(l.search_data, "string_key5"@);
    assoc::set_is_found(l.search_data, "string_key5"@, leader, key);
    assoc::set_is_found(l.search_data, "string_key5"@, leader, "string_key8"@);
    if own is Some {
        let t = JsonView::Text(json::rendered(own->0));
        assoc::set_is_found(l.search_data, "string_key5"@, t, key);
        assoc::set_is_found(l.search_data, "string_key5"@, t, "string_key8"@);
    }
    let sd = broker::with_leader(l.search_data, l.leader_object());
    assoc::set_is_found(sd, "string_key8"@, JsonView::Text(l.owner_id()), key);
}

// Constraints

/// A constraint on a text property compares the property with the value, letter by letter.
pub proof fn text_constraint_compares(
    c: ClauseView,
    l: LobbyModel,
    n: NumeralsView,
    k: u32,
    t: Seq<char>,
)
    requires
        c.key == Key::StringKey(k),
        assoc::lookup(l.search_data, "string_key"@ + text::decimal(k as nat)) == Some(
            JsonView::Text(t),
        ),
    ensures
        c.op is Eq ==> lobby_filter::holds(c, l, n) == Some(t == c.value),
        c.op is Ne ==> lobby_filter::holds(c, l, n) == Some(t != c.value),
        !(c.op is Eq) && !(c.op is Ne) ==> lobby_filter::holds(c, l, n) is None,
{
}

/// A constraint on a number compares the value that the lobby has with the one that is asked for,
/// in that order.
pub proof fn number_constraint_compares(
    c: ClauseView,
    l: LobbyModel,
    n: NumeralsView,
    t: Seq<char>,
    x: i64,
    y: i64,
)
    requires
        numeral::is_numeral(text::trimmed(c.value)),
        n.value(text::trimmed(c.value)) == Real::Rank(y),
        n.value(t) == Real::Rank(x),
        ({
            ||| (c.key matches Key::NumberKey(k) && assoc::lookup(
                l.search_data,
                "number_key"@ + text::decimal(k as nat),
            ) == Some(JsonView::Number(t)))
            ||| c.key is MemberCount && t == text::integer_text(l.current_members as int)
            ||| c.key is MaxMemberCount && t == text::integer_text(l.max_players as int)
            ||| c.key is MemberCountRemaining && t == text::integer_text(
                l.max_players - l.current_members,
            )
        }),
    ensures
        ({
            let r = lobby_filter::holds(c, l, n);
            &&& c.op is Eq ==> r == Some(x == y)
            &&& c.op is Ne ==> r == Some(x != y)
            &&& c.op is Lt ==> r == Some(x < y)
            &&& c.op is Le ==> r == Some(x <= y)
            &&& c.op is Gt ==> r == Some(x > y)
            &&& c.op is Ge ==> r == Some(x >= y)
        }),
{
}

/// The constraints on what the searcher is to a lobby, on its name and on its lock.
pub proof fn other_constraints_compare(
    c: ClauseView,
    l: LobbyState,
    me: Seq<char>,
    n: NumeralsView,
)
    requires
        me.len() > 0,
        c.op is Eq,
    ensures
        ({
            let r = lobby_filter::holds(c, search::seen_lobby(l, Some(me)), n);
            &&& c.key is AmOwner && c.value == "true"@ ==> r == Some(l.owner_id() == me)
            &&& c.key is AmOwner && c.value == "false"@ ==> r == Some(l.owner_id() != me)
            &&& c.key is AmMember && c.value == "true"@ ==> r == Some(
                broker::has_member(l.members, me) || l.owner_id() == me,
            )
            &&& c.key is AmServer && c.value == "true"@ ==> r == Some(false)
            &&& c.key is LobbyId ==> r == Some(l.id == c.value)
            &&& c.key is MembershipLock && l.membership_lock == c.value ==> r == Some(true)
            &&& c.key is MembershipLock && text::lowered(l.membership_lock) != text::lowered(
                c.value,
            ) ==> r == Some(false)
        }),
{
    reveal_strlit("true");
    reveal_strlit("false");
    assert("true"@.len() != "false"@.len());
}

/// What a filter sees of a lobby is what the lobby is.
pub proof fn filter_sees_the_lobby(l: LobbyState, viewer: Option<Seq<char>>)
    requires
        l.wf(),
    ensures
        ({
            let seen = search::seen_lobby(l, viewer);
            &&& seen.id == l.id
            &&& seen.max_players == l.max_players
            &&& seen.current_members == l.members.len()
            &&& seen.membership_lock == l.membership_lock
            &&& search::result_row(l).field("SearchData"@) == Some(
                JsonView::Object(seen.search_data),
            )
        }),
{
    lemma_row(l);
}

/// The names of comparisons in a filter.
pub proof fn comparisons_are_named()
    ensures
        lobby_filter::op_of("eq"@) == Some(Op::Eq),
        lobby_filter::op_of("ne"@) == Some(Op::Ne),
        lobby_filter::op_of("lt"@) == Some(Op::Lt),
        lobby_filter::op_of("le"@) == Some(Op::Le),
        lobby_filter::op_of("gt"@) == Some(Op::Gt),
        lobby_filter::op_of("ge"@) == Some(Op::Ge),
{
    reveal_strlit("eq");
    reveal_strlit("ne");
    reveal_strlit("lt");
    reveal_strlit("le");
    reveal_strlit("gt");
    reveal_strlit("ge");
    assert("ne"@[0] == 'n' && "eq"@[0] == 'e' && "le"@[0] == 'l' && "ge"@[0] == 'g');
    assert("lt"@[0] == 'l' && "lt"@[1] == 't' && "le"@[1] == 'e');
    assert("gt"@[0] == 'g' && "gt"@[1] == 't' && "ge"@[1] == 'e');
}

// Order

/// By a sort term, the lobby with the smaller value comes first, the larger one where the term
/// asks for descending order; a lobby without the value comes after those with one.
pub proof fn sort_term_orders(
    a: LobbyState,
    b: LobbyState,
    specs: Seq<SortView>,
    viewer: Option<Seq<char>>,
    n: NumeralsView,
    x: i64,
    y: i64,
)
    requires
        specs.len() > 0,
        lobby_filter::sort_value(search::seen_lobby(a, viewer), specs[0], n) == Some(Real::Rank(x)),
    ensures
        ({
            let other = lobby_filter::sort_value(search::seen_lobby(b, viewer), specs[0], n);
            &&& other == Some(Real::Rank(y)) && x < y && !specs[0].desc ==> search::precedes(
                a,
                b,
                specs,
                viewer,
                n,
            ) && !search::precedes(b, a, specs, viewer, n)
            &&& other == Some(Real::Rank(y)) && x < y && specs[0].desc ==> search::precedes(
                b,
                a,
                specs,
                viewer,
                n,
            ) && !search::precedes(a, b, specs, viewer, n)
            &&& other == Some(Real::Rank(y)) && x == y ==> search::precedes(a, b, specs, viewer, n)
                == search::precedes(a, b, specs.drop_first(), viewer, n)
            &&& other is None ==> search::precedes(a, b, specs, viewer, n) && !search::precedes(
                b,
                a,
                specs,
                viewer,
                n,
            )
        }),
{
}

/// Lobbies that the sort leaves level come with the younger one first.
pub proof fn younger_comes_first(
    a: LobbyState,
    b: LobbyState,
    viewer: Option<Seq<char>>,
    n: NumeralsView,
)
    ensures
        search::precedes(a, b, Seq::empty(), viewer, n) <==> a.created > b.created,
{
}

/// A sort term without a target orders by the number that the lobby has.
pub proof fn sort_value_is_the_number(
    l: LobbyModel,
    spec: SortView,
    n: NumeralsView,
    k: u32,
    t: Seq<char>,
)
    requires
        spec.distance is None,
    ensures
        spec.key == Key::NumberKey(k) && assoc::lookup(
            l.search_data,
            "number_key"@ + text::decimal(k as nat),
        ) == Some(JsonView::Number(t)) ==> lobby_filter::sort_value(l, spec, n) == Some(n.value(t)),
        spec.key == Key::NumberKey(k) && assoc::lookup(
            l.search_data,
            "number_key"@ + text::decimal(k as nat),
        ) is None ==> lobby_filter::sort_value(l, spec, n) is None,
        spec.key is MemberCount ==> lobby_filter::sort_value(l, spec, n) == Some(
            n.value(text::integer_text(l.current_members as int)),
        ),
{
}

}
