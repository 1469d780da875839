//! What has changed of a lobby from one look at it to the next.
use crate::assoc;
use crate::lobby_model;
use crate::lobby_model::{Bag, Entity, EntityView, Lobby, LobbyView};
use crate::text;
use vstd::prelude::*;

verus! {

/// A list in order, with one more text in its place; a text that is there is not put in again.
pub open spec fn inserting(v: Seq<Seq<char>>, t: Seq<char>) -> Seq<Seq<char>>
    decreases v.len(),
{
    if v.len() == 0 {
        seq![t]
    } else if v[0] == t {
        v
    } else if text::text_before(t, v[0]) {
        seq![t] + v
    } else {
        seq![v[0]] + inserting(v.drop_first(), t)
    }
}

/// Puts a text into a list in order.
fn insert_sorted(v: &mut Vec<String>, t: &str)
    ensures
        text::views(final(v)@) == inserting(text::views(old(v)@), t@),
{
    let ghost all = text::views(v@);
    let s = text::chars_of(t);
    let mut i: usize = 0;
    assert(all.skip(0) =~= all);
    assert(inserting(all, t@) =~= all.take(0) + inserting(all.skip(0), t@));
    while i < v.len()
        invariant
            i <= v@.len(),
            all == text::views(v@),
            v@ == old(v)@,
            s@ == t@,
            inserting(all, t@) == all.take(i as int) + inserting(all.skip(i as int), t@),
        decreases v@.len() - i,
    {
        let ghost rest = all.skip(i as int);
        assert(rest[0] == v@[i as int]@);
        if text::eq(v[i].as_str(), t) {
            assert(all.take(i as int) + rest =~= all);
            return;
        }
        if text::comes_before(s.as_slice(), text::chars_of(v[i].as_str()).as_slice()) {
            v.insert(i, t.to_owned());
            assert(text::views(v@) =~= all.insert(i as int, t@));
            assert(all.take(i as int) + (seq![t@] + rest) =~= all.insert(i as int, t@));
            return;
        }
        assert(rest.drop_first() =~= all.skip(i + 1));
        assert(all.take(i as int) + (seq![rest[0]] + inserting(all.skip(i + 1), t@)) =~= all.take(
            i + 1,
        ) + inserting(all.skip(i + 1), t@));
        i += 1;
    }
    v.push(t.to_owned());
    assert(text::views(v@) =~= all.push(t@));
    assert(all.skip(i as int) =~= Seq::empty());
    assert(all.take(i as int) + seq![t@] =~= all.push(t@));
}

/// The names in `v` whose values differ in `other`, put into the list `out`.
pub open spec fn differing(
    v: Seq<(Seq<char>, Seq<char>)>,
    other: Seq<(Seq<char>, Seq<char>)>,
    out: Seq<Seq<char>>,
) -> Seq<Seq<char>>
    decreases v.len(),
{
    if v.len() == 0 {
        out
    } else {
        let before = differing(v.drop_last(), other, out);
        if assoc::lookup(other, v.last().0) == Some(v.last().1) {
            before
        } else {
            inserting(before, v.last().0)
        }
    }
}

/// The names in `v` that `other` lacks, put into the list `out`.
pub open spec fn lacking(
    v: Seq<(Seq<char>, Seq<char>)>,
    other: Seq<(Seq<char>, Seq<char>)>,
    out: Seq<Seq<char>>,
) -> Seq<Seq<char>>
    decreases v.len(),
{
    if v.len() == 0 {
        out
    } else {
        let before = lacking(v.drop_last(), other, out);
        if assoc::lookup(other, v.last().0) is Some {
            before
        } else {
            inserting(before, v.last().0)
        }
    }
}

/// The names whose values came, changed or went, in order.
pub open spec fn changed_names(
    before: Seq<(Seq<char>, Seq<char>)>,
    after: Seq<(Seq<char>, Seq<char>)>,
) -> Seq<Seq<char>> {
    lacking(before, after, differing(after, before, Seq::empty()))
}

/// Finds the names whose values came, changed or went, in order.
pub fn changed_keys(before: &Bag, after: &Bag) -> (r: Vec<String>)
    ensures
        text::views(r@) == changed_names(before@, after@),
{
    let mut r: Vec<String> = Vec::new();
    assert(text::views(r@) =~= Seq::empty());
    let mut i: usize = 0;
    assert(after@.take(0) =~= Seq::empty());
    while i < after.entries.len()
        invariant
            i <= after.entries@.len(),
            text::views(r@) == differing(after@.take(i as int), before@, Seq::empty()),
        decreases after.entries@.len() - i,
    {
        assert(after@.take(i + 1).drop_last() =~= after@.take(i as int));
        assert(after@[i as int] == (after.entries@[i as int].0@, after.entries@[i as int].1@));
        let same = match assoc::get(&before.entries, after.entries[i].0.as_str()) {
            Some(v) => text::eq(v.as_str(), after.entries[i].1.as_str()),
            None => false,
        };
        if !same {
            insert_sorted(&mut r, after.entries[i].0.as_str());
        }
        i += 1;
    }
    assert(after@.take(i as int) =~= after@);
    let ghost half = text::views(r@);
    let mut k: usize = 0;
    assert(before@.take(0) =~= Seq::empty());
    while k < before.entries.len()
        invariant
            k <= before.entries@.len(),
            text::views(r@) == lacking(before@.take(k as int), after@, half),
        decreases before.entries@.len() - k,
    {
        assert(before@.take(k + 1).drop_last() =~= before@.take(k as int));
        assert(before@[k as int] == (before.entries@[k as int].0@, before.entries@[k as int].1@));
        if assoc::get(&after.entries, before.entries[k].0.as_str()).is_none() {
            insert_sorted(&mut r, before.entries[k].0.as_str());
        }
        k += 1;
    }
    assert(before@.take(k as int) =~= before@);
    r
}

/// A text is in the list with it put in, and so is what was there, and nothing else.
proof fn lemma_inserting(v: Seq<Seq<char>>, t: Seq<char>, k: Seq<char>)
    ensures
        inserting(v, t).contains(k) <==> v.contains(k) || k == t,
    decreases v.len(),
{
    let w = inserting(v, t);
    if v.len() == 0 {
        assert(w[0] == t);
    } else if v[0] == t {
        assert(v.contains(t));
    } else if text::text_before(t, v[0]) {
        if v.contains(k) {
            let i = choose|i: int| 0 <= i < v.len() && v[i] == k;
            assert(w[i + 1] == k);
        }
        assert(w[0] == t);
        if w.contains(k) && k != t {
            let i = choose|i: int| 0 <= i < w.len() && w[i] == k;
            assert(v[i - 1] == k);
        }
    } else {
        let r = v.drop_first();
        lemma_inserting(r, t, k);
        let x = inserting(r, t);
        if v.contains(k) {
            let i = choose|i: int| 0 <= i < v.len() && v[i] == k;
            if i == 0 {
                assert(w[0] == k);
            } else {
                assert(r[i - 1] == k);
                let j = choose|j: int| 0 <= j < x.len() && x[j] == k;
                assert(w[j + 1] == k);
            }
        }
        if k == t {
            let j = choose|j: int| 0 <= j < x.len() && x[j] == t;
            assert(w[j + 1] == t);
        }
        if w.contains(k) {
            let i = choose|i: int| 0 <= i < w.len() && w[i] == k;
            if i == 0 {
                assert(v[0] == k);
            } else {
                assert(x[i - 1] == k);
                if k != t {
                    let j = choose|j: int| 0 <= j < r.len() && r[j] == k;
                    assert(v[j + 1] == k);
                }
            }
        }
    }
}

proof fn lemma_differing(
    v: Seq<(Seq<char>, Seq<char>)>,
    other: Seq<(Seq<char>, Seq<char>)>,
    out: Seq<Seq<char>>,
    k: Seq<char>,
)
    ensures
        differing(v, other, out).contains(k) <==> out.contains(k) || exists|i: int|
            0 <= i < v.len() && (#[trigger] v[i]).0 == k && assoc::lookup(other, k) != Some(v[i].1),
    decreases v.len(),
{
    if v.len() > 0 {
        let w = v.drop_last();
        lemma_differing(w, other, out, k);
        lemma_inserting(differing(w, other, out), v.last().0, k);
        if exists|i: int|
            0 <= i < w.len() && (#[trigger] w[i]).0 == k && assoc::lookup(other, k) != Some(w[i].1) {
            let i = choose|i: int|
                0 <= i < w.len() && (#[trigger] w[i]).0 == k && assoc::lookup(other, k) != Some(
                    w[i].1,
                );
            assert(v[i] == w[i]);
        }
        if exists|i: int|
            0 <= i < v.len() && (#[trigger] v[i]).0 == k && assoc::lookup(other, k) != Some(v[i].1) {
            let i = choose|i: int|
                0 <= i < v.len() && (#[trigger] v[i]).0 == k && assoc::lookup(other, k) != Some(
                    v[i].1,
                );
            if i < w.len() {
                assert(w[i] == v[i]);
            }
        }
        assert(v[v.len() - 1] == v.last());
    }
}

proof fn lemma_lacking(
    v: Seq<(Seq<char>, Seq<char>)>,
    other: Seq<(Seq<char>, Seq<char>)>,
    out: Seq<Seq<char>>,
    k: Seq<char>,
)
    ensures
        lacking(v, other, out).contains(k) <==> out.contains(k) || (assoc::lookup(other, k) is None
            && exists|i: int| 0 <= i < v.len() && (#[trigger] v[i]).0 == k),
    decreases v.len(),
{
    if v.len() > 0 {
        let w = v.drop_last();
        lemma_lacking(w, other, out, k);
        lemma_inserting(lacking(w, other, out), v.last().0, k);
        if exists|i: int| 0 <= i < w.len() && (#[trigger] w[i]).0 == k {
            let i = choose|i: int| 0 <= i < w.len() && (#[trigger] w[i]).0 == k;
            assert(v[i] == w[i]);
        }
        if exists|i: int| 0 <= i < v.len() && (#[trigger] v[i]).0 == k {
            let i = choose|i: int| 0 <= i < v.len() && (#[trigger] v[i]).0 == k;
            if i < w.len() {
                assert(w[i] == v[i]);
            }
        }
        assert(v[v.len() - 1] == v.last());
    }
}

/// A name is told of exactly when its value came, changed or went.
pub proof fn only_changes_are_told(
    before: Seq<(Seq<char>, Seq<char>)>,
    after: Seq<(Seq<char>, Seq<char>)>,
    k: Seq<char>,
)
    requires
        assoc::distinct(before),
        assoc::distinct(after),
    ensures
        changed_names(before, after).contains(k) <==> assoc::lookup(before, k) != assoc::lookup(
            after,
            k,
        ),
{
    lemma_differing(after, before, Seq::empty(), k);
    lemma_lacking(before, after, differing(after, before, Seq::empty()), k);
    assoc::lemma_place(before, k);
    assoc::lemma_place(after, k);
    if assoc::lookup(after, k) is Some {
        let i = assoc::place(after, k)->0;
        assert forall|j: int| 0 <= j < after.len() && (#[trigger] after[j]).0 == k implies j == i by {
            if j < i {
                assert(after[j].0 != after[i].0);
            } else if i < j {
                assert(after[i].0 != after[j].0);
            }
        }
        assert(after[i].0 == k);
    }
    if assoc::lookup(before, k) is Some {
        let i = assoc::place(before, k)->0;
        assert(before[i].0 == k);
    }
}

/// The names are told in order, and each once.
pub proof fn changes_are_told_in_order(
    before: Seq<(Seq<char>, Seq<char>)>,
    after: Seq<(Seq<char>, Seq<char>)>,
)
    ensures
        in_order(changed_names(before, after)),
{
    lemma_differing_order(after, before, Seq::empty());
    lemma_lacking_order(before, after, differing(after, before, Seq::empty()));
}

/// Each text comes before the ones behind it.
pub open spec fn in_order(v: Seq<Seq<char>>) -> bool {
    forall|i: int, j: int| 0 <= i < j < v.len() ==> text::text_before(#[trigger] v[i], #[trigger] v[j])
}

proof fn lemma_before_transitive(a: Seq<char>, b: Seq<char>, c: Seq<char>)
    requires
        text::text_before(a, b),
        text::text_before(b, c),
    ensures
        text::text_before(a, c),
    decreases a.len(),
{
    if a.len() > 0 && b.len() > 0 && c.len() > 0 && a[0] == b[0] && b[0] == c[0] {
        lemma_before_transitive(a.drop_first(), b.drop_first(), c.drop_first());
    }
}

proof fn lemma_before_total(a: Seq<char>, b: Seq<char>)
    ensures
        a == b || text::text_before(a, b) || text::text_before(b, a),
    decreases a.len(),
{
    if a.len() > 0 && b.len() > 0 && a[0] == b[0] {
        lemma_before_total(a.drop_first(), b.drop_first());
        if a.drop_first() == b.drop_first() {
            assert(a =~= seq![a[0]] + a.drop_first());
            assert(b =~= seq![b[0]] + b.drop_first());
        }
    } else if a.len() == 0 && b.len() == 0 {
        assert(a =~= b);
    }
}

proof fn lemma_inserting_order(v: Seq<Seq<char>>, t: Seq<char>)
    requires
        in_order(v),
    ensures
        in_order(inserting(v, t)),
    decreases v.len(),
{
    if v.len() > 0 && v[0] != t {
        lemma_before_total(v[0], t);
        if text::text_before(t, v[0]) {
            let w = inserting(v, t);
            assert forall|i: int, j: int| 0 <= i < j < w.len() implies text::text_before(
                #[trigger] w[i],
                #[trigger] w[j],
            ) by {
                if i == 0 {
                    if j > 1 {
                        assert(text::text_before(v[0], v[j - 1]));
                        lemma_before_transitive(t, v[0], v[j - 1]);
                    }
                } else {
                    assert(text::text_before(v[i - 1], v[j - 1]));
                }
            }
        } else {
            let r = v.drop_first();
            assert(in_order(r)) by {
                assert forall|i: int, j: int| 0 <= i < j < r.len() implies text::text_before(
                    #[trigger] r[i],
                    #[trigger] r[j],
                ) by {
                    assert(text::text_before(v[i + 1], v[j + 1]));
                }
            }
            lemma_inserting_order(r, t);
            let x = inserting(r, t);
            let w = inserting(v, t);
            assert forall|i: int, j: int| 0 <= i < j < w.len() implies text::text_before(
                #[trigger] w[i],
                #[trigger] w[j],
            ) by {
                if i == 0 {
                    let k = x[j - 1];
                    assert(x.contains(k));
                    lemma_inserting(r, t, k);
                    if k != t {
                        assert(r.contains(k));
                        let m = choose|m: int| 0 <= m < r.len() && r[m] == k;
                        assert(text::text_before(v[0], v[m + 1]));
                    }
                } else {
                    assert(text::text_before(x[i - 1], x[j - 1]));
                }
            }
        }
    }
}

proof fn lemma_differing_order(
    v: Seq<(Seq<char>, Seq<char>)>,
    other: Seq<(Seq<char>, Seq<char>)>,
    out: Seq<Seq<char>>,
)
    requires
        in_order(out),
    ensures
        in_order(differing(v, other, out)),
    decreases v.len(),
{
    if v.len() > 0 {
        lemma_differing_order(v.drop_last(), other, out);
        lemma_inserting_order(differing(v.drop_last(), other, out), v.last().0);
    }
}

proof fn lemma_lacking_order(
    v: Seq<(Seq<char>, Seq<char>)>,
    other: Seq<(Seq<char>, Seq<char>)>,
    out: Seq<Seq<char>>,
)
    requires
        in_order(out),
    ensures
        in_order(lacking(v, other, out)),
    decreases v.len(),
{
    if v.len() > 0 {
        lemma_lacking_order(v.drop_last(), other, out);
        lemma_inserting_order(lacking(v.drop_last(), other, out), v.last().0);
    }
}

/// What has changed of a participant.
pub struct MemberUpdate {
    pub member: Entity,
    /// The participant is new.
    pub connected: bool,
    pub keys: Vec<String>,
}

#[verifier::ext_equal]
pub struct MemberUpdateView {
    pub member: EntityView,
    pub connected: bool,
    pub keys: Seq<Seq<char>>,
}

impl View for MemberUpdate {
    type V = MemberUpdateView;

    open spec fn view(&self) -> MemberUpdateView {
        MemberUpdateView {
            member: self.member@,
            connected: self.connected,
            keys: text::views(self.keys@),
        }
    }
}

pub open spec fn member_updates(v: Seq<MemberUpdate>) -> Seq<MemberUpdateView> {
    v.map_values(|u: MemberUpdate| u@)
}

/// What has changed of a lobby.
pub struct Delta {
    pub owner: bool,
    pub max_players: bool,
    pub access_policy: bool,
    pub membership_lock: bool,
    pub search_keys: Vec<String>,
    pub lobby_keys: Vec<String>,
    pub members: Vec<MemberUpdate>,
}

#[verifier::ext_equal]
pub struct DeltaView {
    pub owner: bool,
    pub max_players: bool,
    pub access_policy: bool,
    pub membership_lock: bool,
    pub search_keys: Seq<Seq<char>>,
    pub lobby_keys: Seq<Seq<char>>,
    pub members: Seq<MemberUpdateView>,
}

impl View for Delta {
    type V = DeltaView;

    open spec fn view(&self) -> DeltaView {
        DeltaView {
            owner: self.owner,
            max_players: self.max_players,
            access_policy: self.access_policy,
            membership_lock: self.membership_lock,
            search_keys: text::views(self.search_keys@),
            lobby_keys: text::views(self.lobby_keys@),
            members: member_updates(self.members@),
        }
    }
}

/// Nothing has changed.
pub open spec fn no_delta() -> DeltaView {
    DeltaView {
        owner: false,
        max_players: false,
        access_policy: false,
        membership_lock: false,
        search_keys: Seq::empty(),
        lobby_keys: Seq::empty(),
        members: Seq::empty(),
    }
}

impl Delta {
    /// Nothing has changed.
    pub fn none() -> (r: Delta)
        ensures
            r@ == no_delta(),
    {
        let r = Delta {
            owner: false,
            max_players: false,
            access_policy: false,
            membership_lock: false,
            search_keys: Vec::new(),
            lobby_keys: Vec::new(),
            members: Vec::new(),
        };
        assert(r@.search_keys =~= Seq::empty());
        assert(r@.lobby_keys =~= Seq::empty());
        assert(r@.members =~= Seq::empty());
        r
    }

    /// Whether nothing has changed.
    pub fn is_empty(&self) -> (r: bool)
        ensures
            r == (self@ == no_delta()),
    {
        let r = !self.owner && !self.max_players && !self.access_policy && !self.membership_lock
            && self.search_keys.len() == 0 && self.lobby_keys.len() == 0 && self.members.len() == 0;
        assert(self@.search_keys.len() == self.search_keys@.len());
        assert(self@.lobby_keys.len() == self.lobby_keys@.len());
        assert(self@.members.len() == self.members@.len());
        assert(r ==> self@ =~= no_delta());
        r
    }
}

/// Where a participant first stands.
pub open spec fn entity_place(v: Seq<EntityView>, id: Seq<char>) -> Option<int>
    decreases v.len(),
{
    if v.len() == 0 {
        None
    } else if v[0].id == id {
        Some(0)
    } else {
        match entity_place(v.drop_first(), id) {
            Some(i) => Some(i + 1),
            None => None,
        }
    }
}

/// The participant with an identifier, or one made for it.
pub open spec fn entity_for(v: Seq<EntityView>, id: Seq<char>) -> EntityView {
    match entity_place(v, id) {
        Some(i) => v[i],
        None => lobby_model::player(lobby_model::kept(id)),
    }
}

proof fn lemma_entity_place(v: Seq<EntityView>, id: Seq<char>)
    ensures
        match entity_place(v, id) {
            Some(i) => 0 <= i < v.len() && v[i].id == id && forall|j: int|
                0 <= j < i ==> (#[trigger] v[j]).id != id,
            None => forall|j: int| 0 <= j < v.len() ==> (#[trigger] v[j]).id != id,
        },
    decreases v.len(),
{
    if v.len() > 0 && v[0].id != id {
        let r = v.drop_first();
        lemma_entity_place(r, id);
        assert forall|j: int| 0 < j < v.len() implies v[j] == r[j - 1] by {}
    }
}

proof fn lemma_entity_place_is(v: Seq<EntityView>, id: Seq<char>, i: int)
    requires
        0 <= i < v.len(),
        v[i].id == id,
        forall|j: int| 0 <= j < i ==> (#[trigger] v[j]).id != id,
    ensures
        entity_place(v, id) == Some(i),
    decreases i,
{
    if i > 0 {
        lemma_entity_place_is(v.drop_first(), id, i - 1);
    }
}

/// Finds a participant.
pub fn find_entity(v: &Vec<Entity>, id: &str) -> (r: Option<usize>)
    ensures
        match r {
            Some(i) => entity_place(lobby_model::entities(v@), id@) == Some(i as int) && i
                < v@.len(),
            None => entity_place(lobby_model::entities(v@), id@) is None,
        },
{
    let ghost w = lobby_model::entities(v@);
    let mut i: usize = 0;
    while i < v.len()
        invariant
            i <= v@.len(),
            w == lobby_model::entities(v@),
            forall|j: int| 0 <= j < i ==> (#[trigger] w[j]).id != id@,
        decreases v@.len() - i,
    {
        assert(w[i as int] == v@[i as int]@);
        if text::eq(v[i].id.as_str(), id) {
            proof {
                lemma_entity_place_is(w, id@, i as int);
            }
            return Some(i);
        }
        i += 1;
    }
    proof {
        lemma_entity_place(w, id@);
    }
    None
}

/// The values of a participant, or none.
pub open spec fn bag_or_none(
    m: Seq<(Seq<char>, Seq<(Seq<char>, Seq<char>)>)>,
    id: Seq<char>,
) -> Seq<(Seq<char>, Seq<char>)> {
    match assoc::lookup(m, id) {
        Some(b) => b,
        None => Seq::empty(),
    }
}

/// What has changed of the participants: each that is new, and each whose values have changed.
pub open spec fn member_changes(
    before: Seq<(Seq<char>, Seq<(Seq<char>, Seq<char>)>)>,
    after: Seq<(Seq<char>, Seq<(Seq<char>, Seq<char>)>)>,
    members: Seq<EntityView>,
) -> Seq<MemberUpdateView>
    decreases after.len(),
{
    if after.len() == 0 {
        Seq::empty()
    } else {
        let sofar = member_changes(before, after.drop_last(), members);
        let (id, bag) = after.last();
        let is_new = assoc::lookup(before, id) is None;
        let keys = changed_names(bag_or_none(before, id), bag);
        if is_new || keys.len() > 0 {
            sofar.push(
                MemberUpdateView { member: entity_for(members, id), connected: is_new, keys },
            )
        } else {
            sofar
        }
    }
}

/// What has changed of a lobby.
pub open spec fn delta_of(before: LobbyView, after: LobbyView) -> DeltaView {
    DeltaView {
        owner: before.has_owner != after.has_owner || before.owner != after.owner,
        max_players: before.max_players != after.max_players,
        access_policy: before.access_policy != after.access_policy,
        membership_lock: before.membership_lock != after.membership_lock,
        search_keys: changed_names(before.search, after.search),
        lobby_keys: changed_names(before.props, after.props),
        members: member_changes(before.member_props, after.member_props, after.members),
    }
}

/// Finds what has changed of a lobby.
pub fn diff_lobby(before: &Lobby, after: &Lobby) -> (r: Delta)
    ensures
        r@ == delta_of(before@, after@),
{
    let mut members: Vec<MemberUpdate> = Vec::new();
    let ghost all = after@.member_props;
    let mut i: usize = 0;
    assert(all.take(0) =~= Seq::empty());
    assert(member_updates(members@) =~= Seq::empty());
    while i < after.member_props.len()
        invariant
            i <= after.member_props@.len(),
            all == after@.member_props,
            member_updates(members@) == member_changes(
                before@.member_props,
                all.take(i as int),
                after@.members,
            ),
        decreases after.member_props@.len() - i,
    {
        assert(all.take(i + 1).drop_last() =~= all.take(i as int));
        assert(all[i as int] == (
            after.member_props@[i as int].0@,
            after.member_props@[i as int].1@,
        ));
        let id = after.member_props[i].0.as_str();
        let (is_new, keys) = match assoc::get(&before.member_props, id) {
            Some(b) => (false, changed_keys(b, &after.member_props[i].1)),
            None => (true, changed_keys(&Bag::new(), &after.member_props[i].1)),
        };
        assert(text::views(keys@).len() == keys@.len());
        if is_new || keys.len() > 0 {
            let member = match find_entity(&after.members, id) {
                Some(k) => {
                    assert(after@.members[k as int] == after.members@[k as int]@);
                    after.members[k].copy()
                },
                None => lobby_model::player_entity(lobby_model::keep(id).as_str()),
            };
            let ghost sofar = member_updates(members@);
            let u = MemberUpdate { member, connected: is_new, keys };
            members.push(u);
            assert(member_updates(members@) =~= sofar.push(u@));
        }
        i += 1;
    }
    assert(all.take(i as int) =~= all);
    Delta {
        owner: before.has_owner != after.has_owner || !(text::eq(
            before.owner.id.as_str(),
            after.owner.id.as_str(),
        ) && text::eq(before.owner.kind.as_str(), after.owner.kind.as_str())),
        max_players: before.max_players != after.max_players,
        access_policy: before.access_policy != after.access_policy,
        membership_lock: before.membership_lock != after.membership_lock,
        search_keys: changed_keys(&before.search, &after.search),
        lobby_keys: changed_keys(&before.props, &after.props),
        members,
    }
}

/// Values with gaps filled from others.
pub open spec fn filling(
    m: Seq<(Seq<char>, Seq<char>)>,
    v: Seq<(Seq<char>, Seq<char>)>,
) -> Seq<(Seq<char>, Seq<char>)>
    decreases v.len(),
{
    if v.len() == 0 {
        m
    } else {
        let sofar = filling(m, v.drop_last());
        if assoc::lookup(sofar, v.last().0) is None {
            sofar.push(v.last())
        } else {
            sofar
        }
    }
}

/// The values of participants, with the gaps filled from others.
pub open spec fn filling_all(
    m: Seq<(Seq<char>, Seq<(Seq<char>, Seq<char>)>)>,
    v: Seq<(Seq<char>, Seq<(Seq<char>, Seq<char>)>)>,
) -> Seq<(Seq<char>, Seq<(Seq<char>, Seq<char>)>)>
    decreases v.len(),
{
    if v.len() == 0 {
        m
    } else {
        let sofar = filling_all(m, v.drop_last());
        let id = v.last().0;
        assoc::with(
            sofar,
            id,
            lobby_model::ensured(filling(bag_or_none(sofar, id), v.last().1), id),
        )
    }
}

/// Fills gaps of values from others.
fn fill(m: &mut Bag, v: &Bag)
    ensures
        final(m)@ == filling(old(m)@, v@),
{
    let mut i: usize = 0;
    assert(v@.take(0) =~= Seq::empty());
    while i < v.entries.len()
        invariant
            i <= v.entries@.len(),
            m@ == filling(old(m)@, v@.take(i as int)),
        decreases v.entries@.len() - i,
    {
        assert(v@.take(i + 1).drop_last() =~= v@.take(i as int));
        assert(v@[i as int] == (v.entries@[i as int].0@, v.entries@[i as int].1@));
        if assoc::get(&m.entries, v.entries[i].0.as_str()).is_none() {
            let ghost sofar = m@;
            let e = (v.entries[i].0.clone(), v.entries[i].1.clone());
            m.entries.push(e);
            assert(m@ =~= sofar.push((e.0@, e.1@)));
        }
        i += 1;
    }
    assert(v@.take(i as int) =~= v@);
}

/// The participants that the title was told of and that are not in the lobby any more.
pub open spec fn departed(announced: Seq<Seq<char>>, members: Seq<EntityView>) -> Seq<Seq<char>>
    decreases announced.len(),
{
    if announced.len() == 0 {
        Seq::empty()
    } else {
        let sofar = departed(announced.drop_last(), members);
        if entity_place(members, announced.last()) is None {
            sofar.push(announced.last())
        } else {
            sofar
        }
    }
}

/// A lobby after a new look at it. What the broker tells of the participants wins, and what the
/// client knew of them fills the gaps; where the broker tells of no participants at all, the
/// client keeps those that it knew.
pub open spec fn refreshed(l: LobbyView, fresh: LobbyView) -> LobbyView {
    let keeps = fresh.members.len() == 0 && l.members.len() > 0;
    LobbyView {
        props: fresh.props,
        search: fresh.search,
        connection: fresh.connection,
        owner: fresh.owner,
        has_owner: fresh.has_owner,
        max_players: fresh.max_players,
        access_policy: fresh.access_policy,
        membership_lock: fresh.membership_lock,
        members: if keeps { l.members } else { fresh.members },
        member_props: if keeps {
            l.member_props
        } else {
            filling_all(fresh.member_props, l.member_props)
        },
        ..l
    }
}

/// Takes a new look at a lobby over.
pub fn merge_lobby(l: &mut Lobby, fresh: Lobby)
    ensures
        final(l)@ == refreshed(old(l)@, fresh@),
{
    let ghost before = l@;
    let mut fresh = fresh;
    let ghost told = fresh@;
    let ghost all = before.member_props;
    let mut i: usize = 0;
    assert(all.take(0) =~= Seq::empty());
    while i < l.member_props.len()
        invariant
            i <= l.member_props@.len(),
            l@ == before,
            all == before.member_props,
            fresh@ == (LobbyView {
                member_props: filling_all(told.member_props, all.take(i as int)),
                ..told
            }),
        decreases l.member_props@.len() - i,
    {
        assert(all.take(i + 1).drop_last() =~= all.take(i as int));
        assert(all[i as int] == (l.member_props@[i as int].0@, l.member_props@[i as int].1@));
        let id = l.member_props[i].0.as_str();
        let mut bag = match assoc::get(&fresh.member_props, id) {
            Some(b) => b.copy(),
            None => Bag::new(),
        };
        fill(&mut bag, &l.member_props[i].1);
        lobby_model::ensure_member_props(&mut bag, id);
        assoc::put(&mut fresh.member_props, id, bag);
        i += 1;
    }
    assert(all.take(i as int) =~= all);
    assert(fresh@.members.len() == fresh.members@.len());
    assert(l@.members.len() == l.members@.len());
    l.props = fresh.props;
    l.search = fresh.search;
    l.connection = fresh.connection;
    l.owner = fresh.owner;
    l.has_owner = fresh.has_owner;
    l.max_players = fresh.max_players;
    l.access_policy = fresh.access_policy;
    l.membership_lock = fresh.membership_lock;
    if fresh.members.len() > 0 || l.members.len() == 0 {
        l.members = fresh.members;
        l.member_props = fresh.member_props;
    }
    assert(l@ == refreshed(before, told));
}

/// Finds the participants that the title was told of and that are not in the lobby any more.
pub fn find_departed(announced: &Vec<String>, members: &Vec<Entity>) -> (r: Vec<String>)
    ensures
        text::views(r@) == departed(text::views(announced@), lobby_model::entities(members@)),
{
    let ghost all = text::views(announced@);
    let mut r: Vec<String> = Vec::new();
    let mut i: usize = 0;
    assert(all.take(0) =~= Seq::empty());
    assert(text::views(r@) =~= Seq::empty());
    while i < announced.len()
        invariant
            i <= announced@.len(),
            all == text::views(announced@),
            text::views(r@) == departed(all.take(i as int), lobby_model::entities(members@)),
        decreases announced@.len() - i,
    {
        assert(all.take(i + 1).drop_last() =~= all.take(i as int));
        assert(all[i as int] == announced@[i as int]@);
        if find_entity(members, announced[i].as_str()).is_none() {
            let ghost sofar = text::views(r@);
            let t = announced[i].clone();
            r.push(t);
            assert(text::views(r@) =~= sofar.push(t@));
        }
        i += 1;
    }
    assert(all.take(i as int) =~= all);
    r
}

proof fn lemma_no_names(
    v: Seq<(Seq<char>, Seq<char>)>,
    other: Seq<(Seq<char>, Seq<char>)>,
)
    requires
        forall|i: int|
            0 <= i < v.len() ==> assoc::lookup(other, (#[trigger] v[i]).0) == Some(v[i].1),
    ensures
        differing(v, other, Seq::empty()).len() == 0,
        lacking(v, other, Seq::empty()).len() == 0,
    decreases v.len(),
{
    if v.len() > 0 {
        assert forall|i: int| 0 <= i < v.len() - 1 implies assoc::lookup(
            other,
            (#[trigger] v.drop_last()[i]).0,
        ) == Some(v.drop_last()[i].1) by {
            assert(v[i] == v.drop_last()[i]);
        }
        lemma_no_names(v.drop_last(), other);
        assert(v[v.len() - 1] == v.last());
    }
}

proof fn lemma_unchanged_names(v: Seq<(Seq<char>, Seq<char>)>)
    requires
        assoc::distinct(v),
    ensures
        changed_names(v, v) == Seq::<Seq<char>>::empty(),
{
    assert forall|i: int| 0 <= i < v.len() implies assoc::lookup(v, (#[trigger] v[i]).0) == Some(
        v[i].1,
    ) by {
        assert forall|j: int| 0 <= j < i implies (#[trigger] v[j]).0 != v[i].0 by {}
        assoc::lemma_place_is(v, v[i].0, i);
    }
    lemma_no_names(v, v);
    assert(differing(v, v, Seq::empty()) =~= Seq::empty());
    assert(lacking(v, v, Seq::empty()) =~= Seq::empty());
}

proof fn lemma_unchanged_members(
    all: Seq<(Seq<char>, Seq<(Seq<char>, Seq<char>)>)>,
    v: Seq<(Seq<char>, Seq<(Seq<char>, Seq<char>)>)>,
    members: Seq<EntityView>,
)
    requires
        forall|i: int| 0 <= i < v.len() ==> assoc::distinct((#[trigger] v[i]).1),
        forall|i: int| 0 <= i < v.len() ==> assoc::lookup(all, (#[trigger] v[i]).0) == Some(v[i].1),
    ensures
        member_changes(all, v, members) == Seq::<MemberUpdateView>::empty(),
    decreases v.len(),
{
    if v.len() > 0 {
        let w = v.drop_last();
        assert forall|i: int| 0 <= i < w.len() implies assoc::distinct((#[trigger] w[i]).1)
            && assoc::lookup(all, w[i].0) == Some(w[i].1) by {
            assert(v[i] == w[i]);
        }
        lemma_unchanged_members(all, w, members);
        assert(v[v.len() - 1] == v.last());
        lemma_unchanged_names(v.last().1);
    }
}

/// A lobby of which nothing has changed gives nothing to tell.
pub proof fn unchanged_lobby_is_silent(l: LobbyView)
    requires
        assoc::distinct(l.props),
        assoc::distinct(l.search),
        assoc::distinct(l.member_props),
        forall|i: int| 0 <= i < l.member_props.len() ==> assoc::distinct((#[trigger] l.member_props[i]).1),
    ensures
        delta_of(l, l) == no_delta(),
{
    lemma_unchanged_names(l.props);
    lemma_unchanged_names(l.search);
    let v = l.member_props;
    assert forall|i: int| 0 <= i < v.len() implies assoc::lookup(v, (#[trigger] v[i]).0) == Some(
        v[i].1,
    ) by {
        assert forall|j: int| 0 <= j < i implies (#[trigger] v[j]).0 != v[i].0 by {}
        assoc::lemma_place_is(v, v[i].0, i);
    }
    lemma_unchanged_members(v, v, l.members);
}

}
