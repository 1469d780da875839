//! The lobbies that a search found, as the title is given them.
use crate::assoc;
use crate::lobby_json;
use crate::lobby_model;
use crate::lobby_model::{Entity, EntityView};
use crate::scan;
use crate::text;
use vstd::prelude::*;

verus! {

/// The most lobbies that a search gives the title.
pub const ROW_CAP: usize = 16;

/// The most values that a lobby is shown with.
pub const VALUE_CAP: usize = 32;

/// A lobby that was found.
pub struct SearchRow {
    pub id: String,
    pub connection: String,
    pub owner: Option<Entity>,
    pub max_member: u32,
    pub current_member: u32,
    pub search: Vec<(String, String)>,
}

#[verifier::ext_equal]
pub struct SearchRowView {
    pub id: Seq<char>,
    pub connection: Seq<char>,
    pub owner: Option<EntityView>,
    pub max_member: u32,
    pub current_member: u32,
    pub search: Seq<(Seq<char>, Seq<char>)>,
}

impl View for SearchRow {
    type V = SearchRowView;

    open spec fn view(&self) -> SearchRowView {
        SearchRowView {
            id: self.id@,
            connection: self.connection@,
            owner: lobby_model::opt_entity(self.owner),
            max_member: self.max_member,
            current_member: self.current_member,
            search: assoc::pairs(self.search@),
        }
    }
}

pub open spec fn row_views(v: Seq<SearchRow>) -> Seq<SearchRowView> {
    v.map_values(|r: SearchRow| r@)
}

/// A text, or nothing where there is none.
pub open spec fn or_empty(t: Option<Seq<char>>) -> Seq<char> {
    match t {
        Some(t) => t,
        None => Seq::empty(),
    }
}

/// The identifier of the lobby that a row tells of.
pub open spec fn row_id(row: Seq<char>) -> Seq<char> {
    or_empty(lobby_json::field(lobby_model::utf8(row), "LobbyId"@))
}

/// Reads a text of a row, or nothing where there is none.
fn read_field(row: &str, key: &str) -> (r: String)
    ensures
        r@ == or_empty(lobby_json::field(lobby_model::utf8(row@), key@)),
{
    match lobby_json::json_str(row.as_bytes(), key) {
        Some(t) => t,
        None => {
            let r = String::new();
            assert(r@ =~= Seq::empty());
            r
        },
    }
}

/// Reads the identifier of the lobby that a row tells of.
pub fn read_row_id(row: &str) -> (r: String)
    ensures
        r@ == row_id(row@),
{
    read_field(row, "LobbyId")
}

/// The owner that a row tells of, as an object or as a bare text.
pub open spec fn row_owner(row: Seq<char>) -> Option<EntityView> {
    let b = lobby_model::utf8(row);
    let o = lobby_json::object_field(b, "Owner"@);
    let id = match assoc::lookup(o, "Id"@) {
        Some(t) => t,
        None => or_empty(lobby_json::field(b, "Owner"@)),
    };
    if id.len() == 0 {
        None
    } else {
        Some(
            EntityView {
                id: lobby_model::kept(id),
                kind: match assoc::lookup(o, "Type"@) {
                    Some(t) => lobby_model::kept(t),
                    None => lobby_model::kept("title_player_account"@),
                },
            },
        )
    }
}

/// Reads the owner that a row tells of.
pub fn intern_owner_key(row: &str) -> (r: Option<Entity>)
    ensures
        lobby_model::opt_entity(r) == row_owner(row@),
{
    let o = lobby_json::json_obj(row.as_bytes(), "Owner");
    let id = match assoc::get(&o, "Id") {
        Some(t) => t.clone(),
        None => read_field(row, "Owner"),
    };
    if text::is_empty(id.as_str()) {
        return None;
    }
    let kind = match assoc::get(&o, "Type") {
        Some(t) => lobby_model::keep(t.as_str()),
        None => lobby_model::keep("title_player_account"),
    };
    Some(Entity { id: lobby_model::keep(id.as_str()), kind })
}

/// The digits that a text starts with.
pub open spec fn leading_digits(s: Seq<char>) -> Seq<char> {
    s.take(text::span(s, |c: char| text::is_digit(c)))
}

/// How many take part in the lobby that a row tells of: at least one, and at most as many as can.
pub open spec fn row_players(row: Seq<char>) -> int {
    let max = lobby_json::told_max(lobby_model::utf8(row)) as int;
    let n = match lobby_json::number_field(lobby_model::utf8(row), "CurrentPlayers"@) {
        Some(n) => n as int,
        None => match scan::piece_after(row, "\"CurrentPlayers\":"@) {
            Some(rest) => match text::unsigned(leading_digits(rest), u32::MAX as nat) {
                Some(n) => n as int,
                None => 1,
            },
            None => 1,
        },
    };
    if n < 1 {
        1
    } else if n > max {
        max
    } else {
        n
    }
}

/// Counts who take part in the lobby that a row tells of.
fn read_players(row: &str) -> (r: u32)
    ensures
        r == row_players(row@),
{
    let b = row.as_bytes();
    let max: u32 = lobby_json::json_max_players(b);
    let n: u32 = match lobby_json::json_u32(b, "CurrentPlayers") {
        Some(n) => n,
        None => {
            let all = text::chars_of(row);
            match scan::cut_after(
                all.as_slice(),
                text::chars_of("\"CurrentPlayers\":").as_slice(),
            ) {
                Some(rest) => {
                    let mut k: usize = 0;
                    while k < rest.len() && text::digit(rest[k])
                        invariant
                            k <= rest@.len(),
                            forall|j: int| 0 <= j < k ==> text::is_digit(#[trigger] rest@[j]),
                        decreases rest@.len() - k,
                    {
                        k += 1;
                    }
                    proof {
                        text::lemma_span(rest@, |c: char| text::is_digit(c), k as int);
                    }
                    match text::parse_unsigned(text::head(rest, k), u32::MAX as u64) {
                        Some(n) => n as u32,
                        None => 1,
                    }
                },
                None => 1,
            }
        },
    };
    if n < 1 {
        1
    } else if n > max {
        max
    } else {
        n
    }
}

/// Values as they are kept.
pub open spec fn kept_values(m: Seq<(Seq<char>, Seq<char>)>) -> Seq<(Seq<char>, Seq<char>)> {
    m.map_values(
        |e: (Seq<char>, Seq<char>)| (lobby_model::kept(e.0), lobby_model::kept(e.1)),
    )
}

/// The values that a row tells of, as many as are shown.
pub open spec fn row_search(row: Seq<char>) -> Seq<(Seq<char>, Seq<char>)> {
    let m = lobby_json::object_field(lobby_model::utf8(row), "SearchData"@);
    kept_values(if m.len() > VALUE_CAP { m.take(VALUE_CAP as int) } else { m })
}

/// Reads the values that a row tells of.
fn read_search(row: &str) -> (r: Vec<(String, String)>)
    ensures
        assoc::pairs(r@) == row_search(row@),
{
    let m = lobby_json::json_obj(row.as_bytes(), "SearchData");
    let ghost all = assoc::pairs(m@);
    let mut r: Vec<(String, String)> = Vec::new();
    let mut i: usize = 0;
    assert(assoc::pairs(r@) =~= kept_values(all.take(0)));
    while i < m.len() && i < VALUE_CAP
        invariant
            i <= m@.len(),
            i <= VALUE_CAP,
            all == assoc::pairs(m@),
            assoc::pairs(r@) == kept_values(all.take(i as int)),
        decreases m@.len() - i,
    {
        let ghost sofar = assoc::pairs(r@);
        let e = (lobby_model::keep(m[i].0.as_str()), lobby_model::keep(m[i].1.as_str()));
        r.push(e);
        assert(assoc::pairs(r@) =~= sofar.push((e.0@, e.1@)));
        assert(all[i as int] == (m@[i as int].0@, m@[i as int].1@));
        assert(assoc::pairs(r@) =~= kept_values(all.take(i + 1)));
        i += 1;
    }
    assert(all.len() == m@.len());
    assert(all.len() <= VALUE_CAP ==> all.take(i as int) =~= all);
    r
}

/// The lobby that a row tells of.
pub open spec fn row_of(row: Seq<char>) -> SearchRowView {
    SearchRowView {
        id: lobby_model::kept(row_id(row)),
        connection: lobby_model::kept(
            or_empty(lobby_json::field(lobby_model::utf8(row), "ConnectionString"@)),
        ),
        owner: row_owner(row),
        max_member: lobby_json::told_max(lobby_model::utf8(row)),
        current_member: row_players(row) as u32,
        search: row_search(row),
    }
}

/// Reads the lobby that a row tells of.
pub fn read_row(row: &str) -> (r: SearchRow)
    ensures
        r@ == row_of(row@),
{
    SearchRow {
        id: lobby_model::keep(read_row_id(row).as_str()),
        connection: lobby_model::keep(read_field(row, "ConnectionString").as_str()),
        owner: intern_owner_key(row),
        max_member: lobby_json::json_max_players(row.as_bytes()),
        current_member: read_players(row),
        search: read_search(row),
    }
}

/// The lobbies that the title is given.
pub open spec fn rows_of(v: Seq<Seq<char>>) -> Seq<SearchRowView> {
    let shown = if v.len() > ROW_CAP { v.take(ROW_CAP as int) } else { v };
    shown.map_values(|row: Seq<char>| row_of(row))
}

/// Reads the lobbies that the title is given.
pub fn read_rows(v: &Vec<String>) -> (r: Vec<SearchRow>)
    ensures
        row_views(r@) == rows_of(text::views(v@)),
{
    let ghost all = text::views(v@);
    let mut r: Vec<SearchRow> = Vec::new();
    let mut i: usize = 0;
    while i < v.len() && i < ROW_CAP
        invariant
            i <= v@.len(),
            i <= ROW_CAP,
            r@.len() == i,
            all == text::views(v@),
            forall|j: int| 0 <= j < i ==> (#[trigger] r@[j])@ == row_of(all[j]),
        decreases v@.len() - i,
    {
        assert(all[i as int] == v@[i as int]@);
        r.push(read_row(v[i].as_str()));
        i += 1;
    }
    assert(all.len() == v@.len());
    assert(row_views(r@) =~= rows_of(all));
    r
}

}
