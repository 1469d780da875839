//! Searching for lobbies: filtering, sorting and cutting a result, and reporting what was not
//! understood.
use crate::assoc;
use crate::broker;
use crate::broker::{App, AppModel, Lobby, LobbyState, Reply};
use crate::json;
use crate::json::{Json, JsonView};
use crate::lobby_filter;
use crate::lobby_filter::{
    Filter, FilterView, LobbyModel, LobbyView, Numerals, NumeralsView, SortSpec, SortView,
};
use crate::text;
use std::cmp::Ordering;
use vstd::prelude::*;

verus! {

/// The most rows that a search gives.
pub const RESULT_CEILING: i64 = 1000;

/// The text under the first of four names that holds one, else an empty text.
pub open spec fn one_of_four(
    body: JsonView,
    a: Seq<char>,
    b: Seq<char>,
    c: Seq<char>,
    d: Seq<char>,
) -> Seq<char> {
    if body.text_either(a, b) is Some {
        body.text_either(a, b)->0
    } else if body.text_either(c, d) is Some {
        body.text_either(c, d)->0
    } else {
        Seq::empty()
    }
}

pub open spec fn filter_text(body: JsonView) -> Seq<char> {
    match body.text_either("Filter"@, "filter"@) {
        Some(t) => t,
        None => Seq::empty(),
    }
}

pub open spec fn sort_text(body: JsonView) -> Seq<char> {
    one_of_four(body, "Sort"@, "sort"@, "OrderBy"@, "orderBy"@)
}

/// How many rows are asked for.
pub open spec fn asked_count(body: JsonView) -> Option<int> {
    if body.integer_either("ClientSearchResultCount"@, "clientSearchResultCount"@) is Some {
        body.integer_either("ClientSearchResultCount"@, "clientSearchResultCount"@)
    } else {
        match body.field("Pagination"@) {
            Some(p) => p.integer_field("PageSizeRequested"@),
            None => None,
        }
    }
}

/// A search among friends is asked for, of whom the broker knows nothing.
pub open spec fn asks_for_friends(body: JsonView) -> bool {
    body.either("FriendsFilter"@, "friendsFilter"@) is Some
}

/// What a search sees of a lobby.
pub open spec fn seen_lobby(l: LobbyState, viewer: Option<Seq<char>>) -> LobbyModel {
    LobbyModel {
        id: l.id,
        max_players: l.max_players as u32,
        current_members: l.members.len() as u32,
        membership_lock: l.membership_lock,
        search_data: l.found_data(),
        owner_id: l.owner_id(),
        viewer_id: viewer,
        viewer_is_member: viewer is Some && l.has_entity(viewer->0),
        has_server: false,
    }
}

/// The lobbies that a filter accepts, in their order.
pub open spec fn accepted(
    lobbies: Seq<(Seq<char>, LobbyState)>,
    f: FilterView,
    viewer: Option<Seq<char>>,
    n: NumeralsView,
) -> Seq<LobbyState>
    decreases lobbies.len(),
{
    if lobbies.len() == 0 {
        Seq::empty()
    } else {
        let rest = accepted(lobbies.drop_last(), f, viewer, n);
        let l = lobbies.last().1;
        if f.accepts(seen_lobby(l, viewer), n) { rest.push(l) } else { rest }
    }
}

/// `a` comes before `b`: by the sort terms, and where they are level, if it is younger.
pub open spec fn precedes(
    a: LobbyState,
    b: LobbyState,
    specs: Seq<SortView>,
    viewer: Option<Seq<char>>,
    n: NumeralsView,
) -> bool {
    match lobby_filter::lobby_order(seen_lobby(a, viewer), seen_lobby(b, viewer), specs, n) {
        Ordering::Less => true,
        Ordering::Equal => a.created > b.created,
        Ordering::Greater => false,
    }
}

/// A row of lobbies with one more, behind all that it does not precede from the end on.
pub open spec fn inserted(
    row: Seq<LobbyState>,
    l: LobbyState,
    specs: Seq<SortView>,
    viewer: Option<Seq<char>>,
    n: NumeralsView,
) -> Seq<LobbyState>
    decreases row.len(),
{
    if row.len() == 0 || !precedes(l, row.last(), specs, viewer, n) {
        row.push(l)
    } else {
        inserted(row.drop_last(), l, specs, viewer, n).push(row.last())
    }
}

/// Lobbies in the order of a sort; lobbies that it leaves level stay in their order.
pub open spec fn ordered(
    row: Seq<LobbyState>,
    specs: Seq<SortView>,
    viewer: Option<Seq<char>>,
    n: NumeralsView,
) -> Seq<LobbyState>
    decreases row.len(),
{
    if row.len() == 0 {
        Seq::empty()
    } else {
        inserted(ordered(row.drop_last(), specs, viewer, n), row.last(), specs, viewer, n)
    }
}

/// As many rows as are asked for, where any number is.
pub open spec fn cut(row: Seq<LobbyState>, count: Option<int>) -> Seq<LobbyState> {
    match count {
        Some(c) => {
            let most = if c > RESULT_CEILING { RESULT_CEILING as int } else { c };
            if c > 0 && most < row.len() { row.take(most) } else { row }
        },
        None => row,
    }
}

/// The row of a result for a lobby.
pub open spec fn result_row(l: LobbyState) -> JsonView {
    JsonView::Object(
        seq![
            ("LobbyId"@, JsonView::Text(l.id)),
            ("ConnectionString"@, JsonView::Text(l.connection)),
            ("CurrentPlayers"@, json::int_view(l.members.len() as int)),
            ("MaxPlayers"@, json::int_view(l.max_players as int)),
            ("MembershipLock"@, JsonView::Text(l.membership_lock)),
            ("SearchData"@, JsonView::Object(l.found_data())),
            ("Owner"@, l.owner),
        ],
    )
}

/// What of a search was not understood.
pub open spec fn warnings(body: JsonView) -> Seq<Seq<char>> {
    let w = lobby_filter::filter_of(filter_text(body)).unsupported + lobby_filter::order_of(
        sort_text(body),
    ).bad;
    if asks_for_friends(body) {
        w.push("friendsFilter present: broker has no friend graph (fail closed)"@)
    } else {
        w
    }
}

/// The lobbies that a search gives.
pub open spec fn found(
    a: AppModel,
    body: JsonView,
    viewer: Option<Seq<char>>,
    n: NumeralsView,
) -> Seq<LobbyState> {
    let f = lobby_filter::filter_of(filter_text(body));
    let all = if asks_for_friends(body) {
        Seq::empty()
    } else {
        accepted(a.lobbies, f, viewer, n)
    };
    cut(
        ordered(all, lobby_filter::order_of(sort_text(body)).specs, viewer, n),
        asked_count(body),
    )
}

/// What a search is answered with.
pub open spec fn search_view(
    a: AppModel,
    body: JsonView,
    viewer: Option<Seq<char>>,
    n: NumeralsView,
) -> JsonView {
    let rows = found(a, body, viewer, n).map_values(|l: LobbyState| result_row(l));
    let o = seq![("Lobbies"@, JsonView::Array(rows)), ("Pagination"@, broker::nothing())];
    JsonView::Object(
        if warnings(body).len() == 0 {
            o
        } else {
            o.push(
                (
                    "Warnings"@,
                    JsonView::Array(
                        warnings(body).map_values(|w: Seq<char>| JsonView::Text(w)),
                    ),
                ),
            )
        },
    )
}

/// The lobbies at the given places.
pub open spec fn lobbies_at(lobbies: Seq<(Seq<char>, LobbyState)>, places: Seq<usize>) -> Seq<
    LobbyState,
> {
    places.map_values(|i: usize| lobbies[i as int].1)
}

/// What a search sees of a lobby whose properties and owner are at hand.
fn view_of<'a>(
    l: &'a Lobby,
    sd: &'a Vec<(String, Json)>,
    owner: &'a str,
    viewer: Option<&'a str>,
) -> (r: LobbyView<'a>)
    requires
        l@.wf(),
        json::members(sd@) == l@.found_data(),
        owner@ == l@.owner_id(),
    ensures
        r@ == seen_lobby(
            l@,
            match viewer {
                Some(v) => Some(v@),
                None => None,
            },
        ),
{
    assert(l@.members.len() == l.members@.len());
    LobbyView {
        id: l.id.as_str(),
        max_players: l.max_players as u32,
        current_members: l.members.len() as u32,
        membership_lock: l.membership_lock.as_str(),
        search_data: sd,
        owner_id: owner,
        viewer_id: viewer,
        viewer_is_member: match viewer {
            Some(v) => l.has_entity(v),
            None => false,
        },
        has_server: false,
    }
}

/// The view of an optional text.
pub open spec fn opt_str(s: Option<&str>) -> Option<Seq<char>> {
    match s {
        Some(t) => Some(t@),
        None => None,
    }
}

/// Whether one lobby comes before another.
fn comes_before(
    a: &Lobby,
    b: &Lobby,
    specs: &Vec<SortSpec>,
    viewer: Option<&str>,
    numerals: &Numerals,
) -> (r: bool)
    requires
        a@.wf(),
        b@.wf(),
    ensures
        r == precedes(a@, b@, lobby_filter::sort_views(specs@), opt_str(viewer), numerals@),
{
    let sa = a.search_data_for_find();
    let sb = b.search_data_for_find();
    let oa = a.owner_id();
    let ob = b.owner_id();
    let va = view_of(a, &sa, oa.as_str(), viewer);
    let vb = view_of(b, &sb, ob.as_str(), viewer);
    match lobby_filter::cmp_lobbies(&va, &vb, specs.as_slice(), numerals) {
        Ordering::Less => true,
        Ordering::Equal => a.created > b.created,
        Ordering::Greater => false,
    }
}

/// The row of a result for a lobby.
fn make_row(l: &Lobby) -> (r: Json)
    requires
        l@.wf(),
    ensures
        r@ == result_row(l@),
{
    assert(l@.members.len() == l.members@.len());
    let mut o = broker::start();
    json::add_member(&mut o, "LobbyId", json::string(l.id.as_str()));
    json::add_member(&mut o, "ConnectionString", json::string(l.connection.as_str()));
    json::add_member(&mut o, "CurrentPlayers", json::integer_value(l.members.len() as i64));
    json::add_member(&mut o, "MaxPlayers", json::integer_value(l.max_players));
    json::add_member(&mut o, "MembershipLock", json::string(l.membership_lock.as_str()));
    json::add_member(&mut o, "SearchData", json::object(l.search_data_for_find()));
    json::add_member(&mut o, "Owner", l.owner.copy());
    let r = json::object(o);
    assert(r@->Object_0 =~= result_row(l@)->Object_0);
    r
}

impl App {
    /// The places of the lobbies that a filter accepts.
    fn accepted_places(&self, f: &Filter, viewer: Option<&str>, numerals: &Numerals) -> (r: Vec<
        usize,
    >)
        requires
            self@.wf(),
        ensures
            forall|i: int| 0 <= i < r@.len() ==> #[trigger] r@[i] < self.lobbies@.len(),
            lobbies_at(self@.lobbies, r@) == accepted(
                self@.lobbies,
                f@,
                opt_str(viewer),
                numerals@,
            ),
    {
        let ghost all = self@.lobbies;
        let mut out: Vec<usize> = Vec::new();
        let mut i: usize = 0;
        assert(all.take(0) =~= Seq::empty());
        assert(lobbies_at(all, out@) =~= Seq::empty());
        while i < self.lobbies.len()
            invariant
                i <= self.lobbies@.len(),
                self@.wf(),
                all == self@.lobbies,
                forall|k: int| 0 <= k < out@.len() ==> #[trigger] out@[k] < self.lobbies@.len(),
                lobbies_at(all, out@) == accepted(
                    all.take(i as int),
                    f@,
                    opt_str(viewer),
                    numerals@,
                ),
            decreases self.lobbies@.len() - i,
        {
            let l = &self.lobbies[i].1;
            assert(all[i as int].1 == l@);
            let ghost sofar = lobbies_at(all, out@);
            let sd = l.search_data_for_find();
            let owner = l.owner_id();
            let v = view_of(l, &sd, owner.as_str(), viewer);
            if f.matches(&v, numerals) {
                out.push(i);
                assert(lobbies_at(all, out@) =~= sofar.push(l@));
            }
            i += 1;
            assert(all.take(i as int).drop_last() =~= all.take(i - 1));
        }
        assert(all.take(i as int) =~= all);
        out
    }

    /// Puts a place into a row of places, where its lobby belongs.
    fn insert_place(
        &self,
        row: &mut Vec<usize>,
        place: usize,
        specs: &Vec<SortSpec>,
        viewer: Option<&str>,
        numerals: &Numerals,
    )
        requires
            self@.wf(),
            place < self.lobbies@.len(),
            forall|i: int| 0 <= i < old(row)@.len() ==> #[trigger] old(row)@[i] < self.lobbies@.len(),
        ensures
            forall|i: int|
                0 <= i < final(row)@.len() ==> #[trigger] final(row)@[i] < self.lobbies@.len(),
            lobbies_at(self@.lobbies, final(row)@) == inserted(
                lobbies_at(self@.lobbies, old(row)@),
                self@.lobbies[place as int].1,
                lobby_filter::sort_views(specs@),
                opt_str(viewer),
                numerals@,
            ),
    {
        let ghost all = self@.lobbies;
        let ghost before = row@;
        let ghost l = all[place as int].1;
        let ghost sv = lobby_filter::sort_views(specs@);
        let mut k: usize = row.len();
        assert(lobbies_at(all, before).take(k as int) =~= lobbies_at(all, before));
        assert(inserted(lobbies_at(all, before), l, sv, opt_str(viewer), numerals@) =~= inserted(
            lobbies_at(all, before).take(k as int),
            l,
            sv,
            opt_str(viewer),
            numerals@,
        ) + lobbies_at(all, before).skip(k as int));
        while k > 0 && comes_before(
            &self.lobbies[place].1,
            &self.lobbies[row[k - 1]].1,
            specs,
            viewer,
            numerals,
        )
            invariant
                k <= row@.len(),
                row@ == before,
                self@.wf(),
                all == self@.lobbies,
                l == all[place as int].1,
                sv == lobby_filter::sort_views(specs@),
                place < self.lobbies@.len(),
                forall|i: int| 0 <= i < before.len() ==> #[trigger] before[i] < self.lobbies@.len(),
                inserted(lobbies_at(all, before), l, sv, opt_str(viewer), numerals@) == inserted(
                    lobbies_at(all, before).take(k as int),
                    l,
                    sv,
                    opt_str(viewer),
                    numerals@,
                ) + lobbies_at(all, before).skip(k as int),
            decreases k,
        {
            let ghost w = lobbies_at(all, before);
            assert(w.take(k as int).drop_last() =~= w.take(k - 1));
            assert(w.take(k as int).last() == w[k - 1]);
            assert(inserted(w.take(k - 1), l, sv, opt_str(viewer), numerals@).push(w[k - 1])
                + w.skip(k as int) =~= inserted(w.take(k - 1), l, sv, opt_str(viewer), numerals@)
                + w.skip(k - 1));
            k -= 1;
        }
        row.insert(k, place);
        proof {
            let w = lobbies_at(all, before);
            if k > 0 {
                assert(w.take(k as int).last() == w[k - 1]);
                assert(w[k - 1] == all[before[k - 1] as int].1);
            }
            assert(lobbies_at(all, row@) =~= w.take(k as int).push(l) + w.skip(k as int));
        }
    }

    /// The places of lobbies in the order of a sort.
    fn order_places(
        &self,
        places: &Vec<usize>,
        specs: &Vec<SortSpec>,
        viewer: Option<&str>,
        numerals: &Numerals,
    ) -> (r: Vec<usize>)
        requires
            self@.wf(),
            forall|i: int| 0 <= i < places@.len() ==> #[trigger] places@[i] < self.lobbies@.len(),
        ensures
            forall|i: int| 0 <= i < r@.len() ==> #[trigger] r@[i] < self.lobbies@.len(),
            lobbies_at(self@.lobbies, r@) == ordered(
                lobbies_at(self@.lobbies, places@),
                lobby_filter::sort_views(specs@),
                opt_str(viewer),
                numerals@,
            ),
    {
        let ghost all = self@.lobbies;
        let ghost w = lobbies_at(all, places@);
        let mut row: Vec<usize> = Vec::new();
        let mut i: usize = 0;
        assert(w.take(0) =~= Seq::empty());
        assert(lobbies_at(all, row@) =~= Seq::empty());
        while i < places.len()
            invariant
                i <= places@.len(),
                self@.wf(),
                all == self@.lobbies,
                w == lobbies_at(all, places@),
                forall|k: int| 0 <= k < places@.len() ==> #[trigger] places@[k] < self.lobbies@.len(),
                forall|k: int| 0 <= k < row@.len() ==> #[trigger] row@[k] < self.lobbies@.len(),
                lobbies_at(all, row@) == ordered(
                    w.take(i as int),
                    lobby_filter::sort_views(specs@),
                    opt_str(viewer),
                    numerals@,
                ),
            decreases places@.len() - i,
        {
            let place: usize = places[i];
            self.insert_place(&mut row, place, specs, viewer, numerals);
            i += 1;
            assert(w.take(i as int).drop_last() =~= w.take(i - 1));
            assert(w.take(i as int).last() == all[place as int].1);
        }
        assert(w.take(i as int) =~= w);
        row
    }

    /// Answers a search.
    pub fn find_lobbies(
        &self,
        body: &Json,
        headers: &Vec<(String, String)>,
        numerals: &Numerals,
    ) -> (r: Reply)
        requires
            self@.wf(),
        ensures
            r@ == broker::ok_reply(
                search_view(
                    self@,
                    body@,
                    self@.requester(body@, assoc::pairs(headers@)),
                    numerals@,
                ),
            ),
    {
        proof {
            reveal_strlit("");
            assert(""@ =~= Seq::empty());
        }
        let asking = self.request_entity_id(body, headers);
        let viewer: Option<&str> = match &asking {
            Some(v) => Some(v.as_str()),
            None => None,
        };
        let filter = lobby_filter::parse_filter(
            match body.text_either("Filter", "filter") {
                Some(t) => t,
                None => "",
            },
        );
        let (specs, bad) = lobby_filter::parse_sort(
            match body.text_either("Sort", "sort") {
                Some(t) => t,
                None => match body.text_either("OrderBy", "orderBy") {
                    Some(t) => t,
                    None => "",
                },
            },
        );
        let friends = body.either("FriendsFilter", "friendsFilter").is_some();
        let places: Vec<usize> = if friends {
            let none: Vec<usize> = Vec::new();
            assert(lobbies_at(self@.lobbies, none@) =~= Seq::empty());
            none
        } else {
            self.accepted_places(&filter, viewer, numerals)
        };
        let mut row = self.order_places(&places, &specs, viewer, numerals);
        let count: Option<i64> = match body.integer_either(
            "ClientSearchResultCount",
            "clientSearchResultCount",
        ) {
            Some(c) => Some(c),
            None => match body.field("Pagination") {
                Some(p) => p.integer_field("PageSizeRequested"),
                None => None,
            },
        };
        let ghost full = lobbies_at(self@.lobbies, row@);
        if let Some(c) = count {
            let most: i64 = if c > RESULT_CEILING {
                RESULT_CEILING
            } else {
                c
            };
            if c > 0 && row.len() as u64 > most as u64 {
                let ghost all_places = row@;
                row.truncate(most as usize);
                assert(lobbies_at(self@.lobbies, row@) =~= full.take(most as int));
                assert forall|i: int| 0 <= i < row@.len() implies #[trigger] row@[i]
                    < self.lobbies@.len() by {
                    assert(row@[i] == all_places[i]);
                }
            }
        }
        let ghost found_row = found(self@, body@, opt_str(viewer), numerals@);
        assert(lobbies_at(self@.lobbies, row@) == found_row);
        let rows = self.rows_of(&row);
        let warned = warnings_of(&filter, &bad, friends);
        let mut o = broker::start();
        json::add_member(&mut o, "Lobbies", json::array(rows));
        json::add_member(&mut o, "Pagination", broker::empty_object());
        if warned.len() > 0 {
            json::add_member(&mut o, "Warnings", json::array(warned));
        }
        proof {
            assert(json::elements(warned@).len() == warned@.len());
            assert(json::members(o@) =~= search_view(
                self@,
                body@,
                opt_str(viewer),
                numerals@,
            )->Object_0);
        }
        broker::playfab_ok(json::object(o))
    }

    /// The rows for the lobbies at the given places.
    fn rows_of(&self, places: &Vec<usize>) -> (r: Vec<Json>)
        requires
            self@.wf(),
            forall|i: int| 0 <= i < places@.len() ==> #[trigger] places@[i] < self.lobbies@.len(),
        ensures
            json::elements(r@) == lobbies_at(self@.lobbies, places@).map_values(
                |l: LobbyState| result_row(l),
            ),
    {
        let ghost want = lobbies_at(self@.lobbies, places@).map_values(
            |l: LobbyState| result_row(l),
        );
        let mut out: Vec<Json> = Vec::new();
        let mut i: usize = 0;
        assert(json::elements(out@) =~= want.take(0));
        while i < places.len()
            invariant
                i <= places@.len(),
                self@.wf(),
                want == lobbies_at(self@.lobbies, places@).map_values(
                    |l: LobbyState| result_row(l),
                ),
                forall|k: int| 0 <= k < places@.len() ==> #[trigger] places@[k] < self.lobbies@.len(),
                json::elements(out@) == want.take(i as int),
            decreases places@.len() - i,
        {
            let ghost sofar = json::elements(out@);
            let place: usize = places[i];
            assert(self@.lobbies[place as int].1 == self.lobbies@[place as int].1@);
            out.push(make_row(&self.lobbies[place].1));
            i += 1;
            assert(json::elements(out@) =~= sofar.push(want[i - 1]));
            assert(want.take(i as int) =~= want.take(i - 1).push(want[i - 1]));
        }
        assert(want.take(i as int) =~= want);
        out
    }
}

/// What of a search was not understood, as JSON.
fn warnings_of(f: &Filter, bad: &Vec<String>, friends: bool) -> (r: Vec<Json>)
    ensures
        json::elements(r@) == (if friends {
            (f@.unsupported + text::views(bad@)).push(
                "friendsFilter present: broker has no friend graph (fail closed)"@,
            )
        } else {
            f@.unsupported + text::views(bad@)
        }).map_values(|w: Seq<char>| JsonView::Text(w)),
{
    let ghost tv = |w: Seq<char>| JsonView::Text(w);
    let mut out: Vec<Json> = Vec::new();
    let unsupported = f.unsupported();
    let ghost a = f@.unsupported;
    let ghost b = text::views(bad@);
    let mut i: usize = 0;
    assert(json::elements(out@) =~= a.take(0).map_values(tv));
    while i < unsupported.len()
        invariant
            i <= unsupported@.len(),
            text::views(unsupported@) == a,
            tv == (|w: Seq<char>| JsonView::Text(w)),
            json::elements(out@) == a.take(i as int).map_values(tv),
        decreases unsupported@.len() - i,
    {
        let ghost sofar = json::elements(out@);
        out.push(json::string(unsupported[i].as_str()));
        i += 1;
        assert(json::elements(out@) =~= sofar.push(JsonView::Text(a[i - 1])));
        assert(a.take(i as int).map_values(tv) =~= a.take(i - 1).map_values(tv).push(
            JsonView::Text(a[i - 1]),
        ));
    }
    let mut k: usize = 0;
    assert(json::elements(out@) =~= (a + b.take(0)).map_values(tv));
    while k < bad.len()
        invariant
            k <= bad@.len(),
            b == text::views(bad@),
            tv == (|w: Seq<char>| JsonView::Text(w)),
            json::elements(out@) == (a + b.take(k as int)).map_values(tv),
        decreases bad@.len() - k,
    {
        let ghost sofar = json::elements(out@);
        out.push(json::string(bad[k].as_str()));
        k += 1;
        assert(json::elements(out@) =~= sofar.push(JsonView::Text(b[k - 1])));
        assert((a + b.take(k as int)).map_values(tv) =~= (a + b.take(k - 1)).map_values(tv).push(
            JsonView::Text(b[k - 1]),
        ));
    }
    assert(b.take(k as int) =~= b);
    if friends {
        let ghost sofar = json::elements(out@);
        out.push(json::string("friendsFilter present: broker has no friend graph (fail closed)"));
        assert(json::elements(out@) =~= sofar.push(
            JsonView::Text("friendsFilter present: broker has no friend graph (fail closed)"@),
        ));
        assert(json::elements(out@) =~= (a + b).push(
            "friendsFilter present: broker has no friend graph (fail closed)"@,
        ).map_values(tv));
    }
    out
}

// The numerals of a search

/// Every numeral that a search reads stands in a list.
pub open spec fn covers(list: Seq<Seq<char>>, a: AppModel, body: JsonView) -> bool {
    let f = lobby_filter::filter_of(filter_text(body));
    let o = lobby_filter::order_of(sort_text(body));
    &&& forall|i: int|
        0 <= i < f.clauses.len() && lobby_filter::is_numeric((#[trigger] f.clauses[i]).key)
            ==> list.contains(text::trimmed(f.clauses[i].value))
    &&& forall|i: int|
        0 <= i < o.specs.len() && (#[trigger] o.specs[i]).distance is Some ==> list.contains(
            o.specs[i].distance->0,
        )
    &&& forall|i: int, k: lobby_filter::Key|
        0 <= i < a.lobbies.len() && (k matches lobby_filter::Key::NumberKey(n) ==> 1 <= n <= 30)
            && #[trigger] seen_lobby(a.lobbies[i].1, None).numeral(k) is Some ==> list.contains(
            seen_lobby(a.lobbies[i].1, None).numeral(k)->0,
        )
}

/// Adds texts to a list.
fn add_all(list: &mut Vec<String>, more: Vec<String>)
    ensures
        text::views(final(list)@) == text::views(old(list)@) + text::views(more@),
{
    let mut more = more;
    let ghost before = list@;
    let ghost added = more@;
    list.append(&mut more);
    assert(text::views(list@) =~= text::views(before) + text::views(added));
}

impl App {
    /// The numerals that a search reads: those of its filter, its sort and all lobbies.
    pub fn find_numerals(&self, body: &Json) -> (r: Vec<String>)
        requires
            self@.wf(),
        ensures
            covers(text::views(r@), self@, body@),
    {
        proof {
            reveal_strlit("");
            assert(""@ =~= Seq::empty());
        }
        let filter = lobby_filter::parse_filter(
            match body.text_either("Filter", "filter") {
                Some(t) => t,
                None => "",
            },
        );
        let (specs, bad) = lobby_filter::parse_sort(
            match body.text_either("Sort", "sort") {
                Some(t) => t,
                None => match body.text_either("OrderBy", "orderBy") {
                    Some(t) => t,
                    None => "",
                },
            },
        );
        let ghost f = lobby_filter::filter_of(filter_text(body@));
        let ghost o = lobby_filter::order_of(sort_text(body@));
        let mut list = filter.numerals();
        let mut i: usize = 0;
        while i < specs.len()
            invariant
                i <= specs@.len(),
                o.specs == specs@.map_values(|t: SortSpec| t@),
                f == filter@,
                forall|j: int|
                    0 <= j < f.clauses.len() && lobby_filter::is_numeric(
                        (#[trigger] f.clauses[j]).key,
                    ) ==> text::views(list@).contains(text::trimmed(f.clauses[j].value)),
                forall|j: int|
                    0 <= j < i && (#[trigger] o.specs[j]).distance is Some ==> text::views(
                        list@,
                    ).contains(o.specs[j].distance->0),
            decreases specs@.len() - i,
        {
            let ghost before = list@;
            assert(o.specs[i as int] == specs@[i as int]@);
            if let Some(t) = &specs[i].distance {
                list.push(t.clone());
                proof {
                    lobby_filter::lemma_views_push(before, list@.last());
                }
            }
            i += 1;
        }
        let mut k: usize = 0;
        while k < self.lobbies.len()
            invariant
                k <= self.lobbies@.len(),
                self@.wf(),
                forall|j: int|
                    0 <= j < f.clauses.len() && lobby_filter::is_numeric(
                        (#[trigger] f.clauses[j]).key,
                    ) ==> text::views(list@).contains(text::trimmed(f.clauses[j].value)),
                forall|j: int|
                    0 <= j < o.specs.len() && (#[trigger] o.specs[j]).distance is Some
                        ==> text::views(list@).contains(o.specs[j].distance->0),
                forall|j: int, key: lobby_filter::Key|
                    0 <= j < k && (key matches lobby_filter::Key::NumberKey(n) ==> 1 <= n <= 30)
                        && #[trigger] seen_lobby(self@.lobbies[j].1, None).numeral(key) is Some
                        ==> text::views(list@).contains(
                        seen_lobby(self@.lobbies[j].1, None).numeral(key)->0,
                    ),
            decreases self.lobbies@.len() - k,
        {
            let l = &self.lobbies[k].1;
            assert(self@.lobbies[k as int].1 == l@);
            let sd = l.search_data_for_find();
            let owner = l.owner_id();
            let v = view_of(l, &sd, owner.as_str(), None);
            let ghost before = text::views(list@);
            let own = lobby_filter::lobby_numerals(&v);
            let ghost more = text::views(own@);
            add_all(&mut list, own);
            assert forall|t: Seq<char>| before.contains(t) || more.contains(t) implies text::views(
                list@,
            ).contains(t) by {
                let now = text::views(list@);
                if before.contains(t) {
                    let j = choose|j: int| 0 <= j < before.len() && before[j] == t;
                    assert(now[j] == t);
                } else {
                    let j = choose|j: int| 0 <= j < more.len() && more[j] == t;
                    assert(now[before.len() + j] == t);
                }
            }
            k += 1;
        }
        list
    }
}

// What holds of every search

/// A search of which any clause was not understood, or that asks for friends, gives no rows and
/// says why.
pub proof fn search_fails_closed(
    a: AppModel,
    body: JsonView,
    viewer: Option<Seq<char>>,
    n: NumeralsView,
)
    requires
        lobby_filter::filter_of(filter_text(body)).unsupported.len() > 0 || asks_for_friends(body),
    ensures
        found(a, body, viewer, n) == Seq::<LobbyState>::empty(),
        warnings(body).len() > 0,
{
    let f = lobby_filter::filter_of(filter_text(body));
    if !asks_for_friends(body) {
        lemma_refused_accepts_none(a.lobbies, f, viewer, n);
    }
}

proof fn lemma_refused_accepts_none(
    lobbies: Seq<(Seq<char>, LobbyState)>,
    f: FilterView,
    viewer: Option<Seq<char>>,
    n: NumeralsView,
)
    requires
        f.unsupported.len() > 0,
    ensures
        accepted(lobbies, f, viewer, n) == Seq::<LobbyState>::empty(),
    decreases lobbies.len(),
{
    if lobbies.len() > 0 {
        lemma_refused_accepts_none(lobbies.drop_last(), f, viewer, n);
    }
}

/// Sorting neither hides nor invents rows.
pub proof fn sorting_keeps_rows(
    row: Seq<LobbyState>,
    specs: Seq<SortView>,
    viewer: Option<Seq<char>>,
    n: NumeralsView,
)
    ensures
        ordered(row, specs, viewer, n).to_multiset() == row.to_multiset(),
        ordered(row, specs, viewer, n).len() == row.len(),
    decreases row.len(),
{
    broadcast use vstd::seq_lib::group_to_multiset_ensures;

    if row.len() > 0 {
        sorting_keeps_rows(row.drop_last(), specs, viewer, n);
        lemma_inserted_rows(
            ordered(row.drop_last(), specs, viewer, n),
            row.last(),
            specs,
            viewer,
            n,
        );
        assert(row =~= row.drop_last().push(row.last()));
    }
}

proof fn lemma_inserted_rows(
    row: Seq<LobbyState>,
    l: LobbyState,
    specs: Seq<SortView>,
    viewer: Option<Seq<char>>,
    n: NumeralsView,
)
    ensures
        inserted(row, l, specs, viewer, n).to_multiset() == row.push(l).to_multiset(),
        inserted(row, l, specs, viewer, n).len() == row.len() + 1,
    decreases row.len(),
{
    broadcast use vstd::seq_lib::group_to_multiset_ensures;

    if row.len() > 0 && precedes(l, row.last(), specs, viewer, n) {
        lemma_inserted_rows(row.drop_last(), l, specs, viewer, n);
        assert(row =~= row.drop_last().push(row.last()));
        assert(row.push(l).to_multiset() =~= row.drop_last().push(l).push(
            row.last(),
        ).to_multiset());
    }
}

/// A search gives at most as many rows as are asked for, and at most a thousand then.
pub proof fn search_gives_what_is_asked(
    a: AppModel,
    body: JsonView,
    viewer: Option<Seq<char>>,
    n: NumeralsView,
)
    requires
        asked_count(body) is Some,
        asked_count(body)->0 > 0,
    ensures
        found(a, body, viewer, n).len() <= asked_count(body)->0,
        found(a, body, viewer, n).len() <= RESULT_CEILING,
{
}

/// Every value that a sort compares is a number.
pub open spec fn comparable(
    l: LobbyState,
    specs: Seq<SortView>,
    viewer: Option<Seq<char>>,
    n: NumeralsView,
) -> bool {
    forall|i: int|
        0 <= i < specs.len() ==> lobby_filter::sort_value(
            seen_lobby(l, viewer),
            #[trigger] specs[i],
            n,
        ) != Some(crate::numeral::Real::Nan)
}

proof fn lemma_order_chains(
    a: LobbyState,
    b: LobbyState,
    c: LobbyState,
    specs: Seq<SortView>,
    viewer: Option<Seq<char>>,
    n: NumeralsView,
)
    requires
        comparable(a, specs, viewer, n),
        comparable(b, specs, viewer, n),
        comparable(c, specs, viewer, n),
    ensures
        ({
            let (x, y, z) = (seen_lobby(a, viewer), seen_lobby(b, viewer), seen_lobby(c, viewer));
            let ab = lobby_filter::lobby_order(x, y, specs, n);
            let bc = lobby_filter::lobby_order(y, z, specs, n);
            let ac = lobby_filter::lobby_order(x, z, specs, n);
            &&& ab == Ordering::Equal ==> ac == bc
            &&& bc == Ordering::Equal ==> ac == ab
            &&& ab == bc ==> ac == ab
        }),
    decreases specs.len(),
{
    if specs.len() > 0 {
        let rest = specs.drop_first();
        assert forall|l: LobbyState| #[trigger] comparable(l, specs, viewer, n) implies comparable(
            l,
            rest,
            viewer,
            n,
        ) by {
            assert forall|i: int| 0 <= i < rest.len() implies lobby_filter::sort_value(
                seen_lobby(l, viewer),
                #[trigger] rest[i],
                n,
            ) != Some(crate::numeral::Real::Nan) by {
                assert(rest[i] == specs[i + 1]);
            }
        }
        lemma_order_chains(a, b, c, rest, viewer, n);
        assert(lobby_filter::sort_value(seen_lobby(a, viewer), specs[0], n) != Some(
            crate::numeral::Real::Nan,
        ));
        assert(lobby_filter::sort_value(seen_lobby(b, viewer), specs[0], n) != Some(
            crate::numeral::Real::Nan,
        ));
        assert(lobby_filter::sort_value(seen_lobby(c, viewer), specs[0], n) != Some(
            crate::numeral::Real::Nan,
        ));
    }
}

/// Rows whose values are numbers come out in order: none precedes one that comes before it.
pub proof fn sorting_orders_rows(
    row: Seq<LobbyState>,
    specs: Seq<SortView>,
    viewer: Option<Seq<char>>,
    n: NumeralsView,
)
    requires
        forall|i: int| 0 <= i < row.len() ==> comparable(#[trigger] row[i], specs, viewer, n),
    ensures
        ({
            let out = ordered(row, specs, viewer, n);
            &&& forall|i: int| 0 <= i < out.len() ==> comparable(#[trigger] out[i], specs, viewer, n)
            &&& forall|i: int, j: int|
                0 <= i < j < out.len() ==> !precedes(
                    #[trigger] out[j],
                    #[trigger] out[i],
                    specs,
                    viewer,
                    n,
                )
        }),
    decreases row.len(),
{
    if row.len() > 0 {
        let front = row.drop_last();
        assert forall|i: int| 0 <= i < front.len() implies comparable(
            #[trigger] front[i],
            specs,
            viewer,
            n,
        ) by {
            assert(front[i] == row[i]);
        }
        sorting_orders_rows(front, specs, viewer, n);
        assert(comparable(row[row.len() - 1], specs, viewer, n));
        lemma_inserted_orders(
            ordered(front, specs, viewer, n),
            row.last(),
            specs,
            viewer,
            n,
        );
    }
}

proof fn lemma_inserted_orders(
    row: Seq<LobbyState>,
    l: LobbyState,
    specs: Seq<SortView>,
    viewer: Option<Seq<char>>,
    n: NumeralsView,
)
    requires
        comparable(l, specs, viewer, n),
        forall|i: int| 0 <= i < row.len() ==> comparable(#[trigger] row[i], specs, viewer, n),
        forall|i: int, j: int|
            0 <= i < j < row.len() ==> !precedes(
                #[trigger] row[j],
                #[trigger] row[i],
                specs,
                viewer,
                n,
            ),
    ensures
        ({
            let out = inserted(row, l, specs, viewer, n);
            &&& forall|i: int| 0 <= i < out.len() ==> comparable(#[trigger] out[i], specs, viewer, n)
            &&& forall|i: int|
                0 <= i < out.len() ==> (#[trigger] out[i]) == l || row.contains(out[i])
            &&& forall|i: int, j: int|
                0 <= i < j < out.len() ==> !precedes(
                    #[trigger] out[j],
                    #[trigger] out[i],
                    specs,
                    viewer,
                    n,
                )
        }),
    decreases row.len(),
{
    let out = inserted(row, l, specs, viewer, n);
    if row.len() == 0 || !precedes(l, row.last(), specs, viewer, n) {
        assert forall|i: int, j: int| 0 <= i < j < out.len() implies !precedes(
            #[trigger] out[j],
            #[trigger] out[i],
            specs,
            viewer,
            n,
        ) by {
            if j == row.len() {
                let last = row[row.len() - 1];
                if i < row.len() - 1 {
                    assert(!precedes(last, row[i], specs, viewer, n));
                }
                lemma_order_chains(l, last, row[i], specs, viewer, n);
                lemma_order_chains(row[i], last, l, specs, viewer, n);
                lobby_filter::order_is_antisymmetric(
                    seen_lobby(l, viewer),
                    seen_lobby(last, viewer),
                    specs,
                    n,
                );
                lobby_filter::order_is_antisymmetric(
                    seen_lobby(last, viewer),
                    seen_lobby(row[i], viewer),
                    specs,
                    n,
                );
                lobby_filter::order_is_antisymmetric(
                    seen_lobby(l, viewer),
                    seen_lobby(row[i], viewer),
                    specs,
                    n,
                );
            }
        }
        assert forall|i: int| 0 <= i < out.len() implies (#[trigger] out[i]) == l || row.contains(
            out[i],
        ) by {
            if i < row.len() {
                assert(out[i] == row[i]);
            }
        }
    } else {
        let front = row.drop_last();
        let last = row.last();
        assert forall|i: int| 0 <= i < front.len() implies comparable(
            #[trigger] front[i],
            specs,
            viewer,
            n,
        ) by {
            assert(front[i] == row[i]);
        }
        assert forall|i: int, j: int| 0 <= i < j < front.len() implies !precedes(
            #[trigger] front[j],
            #[trigger] front[i],
            specs,
            viewer,
            n,
        ) by {
            assert(!precedes(row[j], row[i], specs, viewer, n));
        }
        lemma_inserted_orders(front, l, specs, viewer, n);
        let inner = inserted(front, l, specs, viewer, n);
        assert(comparable(row[row.len() - 1], specs, viewer, n));
        lobby_filter::order_is_antisymmetric(
            seen_lobby(l, viewer),
            seen_lobby(last, viewer),
            specs,
            n,
        );
        assert forall|i: int| 0 <= i < out.len() implies (#[trigger] out[i]) == l || row.contains(
            out[i],
        ) by {
            if i < inner.len() {
                assert(out[i] == inner[i]);
                if inner[i] != l {
                    let k = choose|k: int| 0 <= k < front.len() && front[k] == inner[i];
                    assert(row[k] == out[i]);
                }
            } else {
                assert(row[row.len() - 1] == out[i]);
            }
        }
        assert forall|i: int, j: int| 0 <= i < j < out.len() implies !precedes(
            #[trigger] out[j],
            #[trigger] out[i],
            specs,
            viewer,
            n,
        ) by {
            if j == inner.len() {
                assert(out[j] == last);
                assert(out[i] == inner[i]);
                if inner[i] != l {
                    let k = choose|k: int| 0 <= k < front.len() && front[k] == inner[i];
                    assert(row[k] == inner[i]);
                    assert(!precedes(row[row.len() - 1], row[k], specs, viewer, n));
                }
            } else {
                assert(out[j] == inner[j] && out[i] == inner[i]);
            }
        }
        assert forall|i: int| 0 <= i < out.len() implies comparable(
            #[trigger] out[i],
            specs,
            viewer,
            n,
        ) by {
            if i < inner.len() {
                assert(out[i] == inner[i]);
            }
        }
    }
}

}
