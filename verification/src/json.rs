//! JSON values as the broker reads and answers them.
use crate::assoc;
use crate::text;
use vstd::prelude::*;

verus! {

/// A JSON value. A number is held by its text, an object by its members in order.
#[derive(Debug)]
pub enum Json {
    Null,
    Bool(bool),
    Number(String),
    Text(String),
    Array(Vec<Json>),
    Object(Vec<(String, Json)>),
}

#[verifier::ext_equal]
pub enum JsonView {
    Null,
    Bool(bool),
    Number(Seq<char>),
    Text(Seq<char>),
    Array(Seq<JsonView>),
    Object(Seq<(Seq<char>, JsonView)>),
}

/// The model of a JSON value.
pub open spec fn model(j: Json) -> JsonView
    decreases j,
{
    match j {
        Json::Null => JsonView::Null,
        Json::Bool(b) => JsonView::Bool(b),
        Json::Number(s) => JsonView::Number(s@),
        Json::Text(s) => JsonView::Text(s@),
        Json::Array(v) => JsonView::Array(
            Seq::new(v@.len(), |i: int| if 0 <= i < v@.len() { model(v@[i]) } else { JsonView::Null }),
        ),
        Json::Object(v) => JsonView::Object(
            Seq::new(
                v@.len(),
                |i: int|
                    if 0 <= i < v@.len() {
                        (v@[i].0@, model(v@[i].1))
                    } else {
                        (Seq::empty(), JsonView::Null)
                    },
            ),
        ),
    }
}

impl View for Json {
    type V = JsonView;

    open spec fn view(&self) -> JsonView {
        model(*self)
    }
}

impl Json {
    /// A copy of the value.
    pub fn copy(&self) -> (r: Json)
        ensures
            r@ == self@,
        decreases self,
    {
        match self {
            Json::Null => Json::Null,
            Json::Bool(b) => Json::Bool(*b),
            Json::Number(s) => Json::Number(s.clone()),
            Json::Text(s) => Json::Text(s.clone()),
            Json::Array(v) => {
                let mut out: Vec<Json> = Vec::new();
                let mut i: usize = 0;
                while i < v.len()
                    invariant
                        i <= v@.len(),
                        self matches Json::Array(w) && w == v,
                        out@.len() == i,
                        forall|k: int| 0 <= k < i ==> (#[trigger] out@[k])@ == v@[k]@,
                    decreases v@.len() - i,
                {
                    out.push(v[i].copy());
                    i += 1;
                }
                let r = Json::Array(out);
                assert(r@->Array_0 =~= self@->Array_0);
                r
            },
            Json::Object(v) => {
                let mut out: Vec<(String, Json)> = Vec::new();
                let mut i: usize = 0;
                while i < v.len()
                    invariant
                        i <= v@.len(),
                        self matches Json::Object(w) && w == v,
                        out@.len() == i,
                        forall|k: int|
                            0 <= k < i ==> (#[trigger] out@[k]).0@ == v@[k].0@ && out@[k].1@
                                == v@[k].1@,
                    decreases v@.len() - i,
                {
                    out.push((v[i].0.clone(), v[i].1.copy()));
                    i += 1;
                }
                let r = Json::Object(out);
                assert(r@->Object_0 =~= self@->Object_0);
                r
            },
        }
    }
}

/// The model of the members of an object.
pub open spec fn members(v: Seq<(String, Json)>) -> Seq<(Seq<char>, JsonView)> {
    assoc::pairs(v)
}

/// An object with all members of another set, in their order.
pub open spec fn with_all(
    o: Seq<(Seq<char>, JsonView)>,
    more: Seq<(Seq<char>, JsonView)>,
) -> Seq<(Seq<char>, JsonView)>
    decreases more.len(),
{
    if more.len() == 0 {
        o
    } else {
        with_all(assoc::with(o, more[0].0, more[0].1), more.drop_first())
    }
}

/// An object without any of the named members.
pub open spec fn without_all(o: Seq<(Seq<char>, JsonView)>, keys: Seq<Seq<char>>) -> Seq<
    (Seq<char>, JsonView),
>
    decreases keys.len(),
{
    if keys.len() == 0 {
        o
    } else {
        without_all(assoc::without(o, keys[0]), keys.drop_first())
    }
}

/// The last value that a list of members has under a name.
pub open spec fn last_of(o: Seq<(Seq<char>, JsonView)>, key: Seq<char>) -> Option<JsonView>
    decreases o.len(),
{
    if o.len() == 0 {
        None
    } else if o.last().0 == key {
        Some(o.last().1)
    } else {
        last_of(o.drop_last(), key)
    }
}

proof fn lemma_last_of(o: Seq<(Seq<char>, JsonView)>, key: Seq<char>)
    requires
        o.len() > 0,
    ensures
        last_of(o, key) == (match last_of(o.drop_first(), key) {
            Some(v) => Some(v),
            None => if o[0].0 == key { Some(o[0].1) } else { None },
        }),
    decreases o.len(),
{
    let t = o.drop_first();
    if o.len() > 1 {
        assert(t.last() == o.last());
        assert(t.drop_last() =~= o.drop_last().drop_first());
        lemma_last_of(o.drop_last(), key);
        assert(o.drop_last()[0] == o[0]);
    } else {
        assert(t =~= Seq::empty());
        assert(o.drop_last() =~= Seq::empty());
    }
}

/// Where an object takes over the members of another, each name that the other gives has the last
/// value that it gives, and each other name the value that it had. Names stay distinct.
pub proof fn all_are_set(
    o: Seq<(Seq<char>, JsonView)>,
    more: Seq<(Seq<char>, JsonView)>,
    key: Seq<char>,
)
    ensures
        last_of(more, key) is Some ==> assoc::lookup(with_all(o, more), key) == last_of(more, key),
        last_of(more, key) is None ==> assoc::lookup(with_all(o, more), key) == assoc::lookup(
            o,
            key,
        ),
        assoc::distinct(o) ==> assoc::distinct(with_all(o, more)),
    decreases more.len(),
{
    if more.len() > 0 {
        assoc::set_is_found(o, more[0].0, more[0].1, key);
        all_are_set(assoc::with(o, more[0].0, more[0].1), more.drop_first(), key);
        lemma_last_of(more, key);
    }
}

/// Of the members of an object those that are named for removal are gone, the others are as they
/// were, and names stay distinct.
pub proof fn all_are_removed(
    o: Seq<(Seq<char>, JsonView)>,
    keys: Seq<Seq<char>>,
    key: Seq<char>,
)
    requires
        assoc::distinct(o),
    ensures
        keys.contains(key) ==> assoc::lookup(without_all(o, keys), key) is None,
        !keys.contains(key) ==> assoc::lookup(without_all(o, keys), key) == assoc::lookup(o, key),
        assoc::distinct(without_all(o, keys)),
    decreases keys.len(),
{
    if keys.len() > 0 {
        let t = keys.drop_first();
        let rest = assoc::without(o, keys[0]);
        assoc::removed_is_gone(o, keys[0], key);
        all_are_removed(rest, t, key);
        if keys.contains(key) {
            let i = choose|i: int| 0 <= i < keys.len() && keys[i] == key;
            if i > 0 {
                assert(t[i - 1] == key);
            }
            assert(keys[0] == key || t.contains(key));
        } else {
            assert(keys[0] != key);
            if t.contains(key) {
                let i = choose|i: int| 0 <= i < t.len() && t[i] == key;
                assert(keys[i + 1] == key);
            }
        }
    }
}

/// Sets all members of another object.
pub fn put_all(v: &mut Vec<(String, Json)>, more: &Vec<(String, Json)>)
    ensures
        members(final(v)@) == with_all(members(old(v)@), members(more@)),
{
    let ghost all = members(more@);
    let mut i: usize = 0;
    assert(all.skip(0) =~= all);
    while i < more.len()
        invariant
            i <= more@.len(),
            all == members(more@),
            with_all(members(v@), all.skip(i as int)) == with_all(members(old(v)@), all),
        decreases more@.len() - i,
    {
        assert(all.skip(i as int)[0] == (more@[i as int].0@, more@[i as int].1@));
        assert(all.skip(i as int).drop_first() =~= all.skip(i + 1));
        assoc::put(v, more[i].0.as_str(), more[i].1.copy());
        i += 1;
    }
    assert(all.skip(i as int) =~= Seq::empty());
}

/// Removes all named members.
pub fn drop_all(v: &mut Vec<(String, Json)>, keys: &Vec<String>)
    ensures
        members(final(v)@) == without_all(members(old(v)@), text::views(keys@)),
{
    let ghost all = text::views(keys@);
    let mut i: usize = 0;
    assert(all.skip(0) =~= all);
    while i < keys.len()
        invariant
            i <= keys@.len(),
            all == text::views(keys@),
            without_all(members(v@), all.skip(i as int)) == without_all(members(old(v)@), all),
        decreases keys@.len() - i,
    {
        assert(all.skip(i as int)[0] == keys@[i as int]@);
        assert(all.skip(i as int).drop_first() =~= all.skip(i + 1));
        assoc::drop_key(v, keys[i].as_str());
        i += 1;
    }
    assert(all.skip(i as int) =~= Seq::empty());
}

/// A copy of the members of an object.
pub fn copy_members(v: &Vec<(String, Json)>) -> (r: Vec<(String, Json)>)
    ensures
        members(r@) == members(v@),
{
    let mut out: Vec<(String, Json)> = Vec::new();
    let mut i: usize = 0;
    while i < v.len()
        invariant
            i <= v@.len(),
            members(out@) == members(v@).take(i as int),
        decreases v@.len() - i,
    {
        let ghost before = members(out@);
        out.push((v[i].0.clone(), v[i].1.copy()));
        i += 1;
        assert(members(out@) =~= before.push((v@[i - 1].0@, v@[i - 1].1@)));
        assert(members(v@).take(i as int) =~= before.push(members(v@)[i - 1]));
    }
    assert(members(v@).take(i as int) =~= members(v@));
    out
}

impl JsonView {
    /// The member of an object; nothing else has members.
    pub open spec fn field(self, key: Seq<char>) -> Option<JsonView> {
        match self {
            JsonView::Object(o) => assoc::lookup(o, key),
            _ => None,
        }
    }

    /// The member under the first of two names that the object has.
    pub open spec fn either(self, a: Seq<char>, b: Seq<char>) -> Option<JsonView> {
        if self.field(a) is Some { self.field(a) } else { self.field(b) }
    }

    pub open spec fn text(self) -> Option<Seq<char>> {
        match self {
            JsonView::Text(s) => Some(s),
            _ => None,
        }
    }

    /// The text that a member is.
    pub open spec fn text_field(self, key: Seq<char>) -> Option<Seq<char>> {
        match self.field(key) {
            Some(j) => j.text(),
            None => None,
        }
    }

    /// The text under the first of two names that holds one.
    pub open spec fn text_either(self, a: Seq<char>, b: Seq<char>) -> Option<Seq<char>> {
        if self.text_field(a) is Some { self.text_field(a) } else { self.text_field(b) }
    }

    pub open spec fn members(self) -> Option<Seq<(Seq<char>, JsonView)>> {
        match self {
            JsonView::Object(o) => Some(o),
            _ => None,
        }
    }

    /// The members of an object; of anything else there are none.
    pub open spec fn members_or_none(self) -> Seq<(Seq<char>, JsonView)> {
        match self {
            JsonView::Object(o) => o,
            _ => Seq::empty(),
        }
    }

    /// The 64-bit integer that a value is: a whole number, where one beyond the signed range wraps
    /// around from the unsigned, or the text of an integer.
    pub open spec fn integer(self) -> Option<int> {
        match self {
            JsonView::Number(t) => match whole(t) {
                Some(n) => if i64::MIN <= n <= i64::MAX {
                    Some(n)
                } else if 0 <= n <= u64::MAX {
                    Some(n - 0x1_0000_0000_0000_0000)
                } else {
                    None
                },
                None => None,
            },
            JsonView::Text(t) => text::signed(t, i64::MIN as int, i64::MAX as int),
            _ => None,
        }
    }

    /// The integer that a member is.
    pub open spec fn integer_field(self, key: Seq<char>) -> Option<int> {
        match self.field(key) {
            Some(j) => j.integer(),
            None => None,
        }
    }

    /// The integer under the first of two names that holds one.
    pub open spec fn integer_either(self, a: Seq<char>, b: Seq<char>) -> Option<int> {
        if self.integer_field(a) is Some { self.integer_field(a) } else { self.integer_field(b) }
    }
}

/// The integer whose digits a number's text is.
pub open spec fn whole(t: Seq<char>) -> Option<int> {
    if t.len() > 0 && t[0] == '-' && text::is_number(t.drop_first()) {
        Some(-(text::number(t.drop_first()) as int))
    } else if text::is_number(t) {
        Some(text::number(t) as int)
    } else {
        None
    }
}

impl Json {
    /// The member of an object.
    pub fn field(&self, key: &str) -> (r: Option<&Json>)
        ensures
            match r {
                Some(j) => self@.field(key@) == Some(j@),
                None => self@.field(key@) is None,
            },
    {
        match self {
            Json::Object(v) => {
                assert(self@->Object_0 =~= members(v@));
                assoc::get(v, key)
            },
            _ => None,
        }
    }

    /// The member under the first of two names that the object has.
    pub fn either(&self, a: &str, b: &str) -> (r: Option<&Json>)
        ensures
            match r {
                Some(j) => self@.either(a@, b@) == Some(j@),
                None => self@.either(a@, b@) is None,
            },
    {
        match self.field(a) {
            Some(j) => Some(j),
            None => self.field(b),
        }
    }

    /// The text that the value is.
    pub fn text(&self) -> (r: Option<&str>)
        ensures
            match r {
                Some(s) => self@.text() == Some(s@),
                None => self@.text() is None,
            },
    {
        match self {
            Json::Text(s) => Some(s.as_str()),
            _ => None,
        }
    }

    /// The text that a member is.
    pub fn text_field(&self, key: &str) -> (r: Option<&str>)
        ensures
            match r {
                Some(s) => self@.text_field(key@) == Some(s@),
                None => self@.text_field(key@) is None,
            },
    {
        match self.field(key) {
            Some(j) => j.text(),
            None => None,
        }
    }

    /// The text under the first of two names that holds one.
    pub fn text_either(&self, a: &str, b: &str) -> (r: Option<&str>)
        ensures
            match r {
                Some(s) => self@.text_either(a@, b@) == Some(s@),
                None => self@.text_either(a@, b@) is None,
            },
    {
        match self.text_field(a) {
            Some(s) => Some(s),
            None => self.text_field(b),
        }
    }

    /// The members of an object.
    pub fn members(&self) -> (r: Option<&Vec<(String, Json)>>)
        ensures
            match r {
                Some(v) => self@ == JsonView::Object(members(v@)),
                None => self@.members() is None,
            },
    {
        match self {
            Json::Object(v) => {
                assert(self@->Object_0 =~= members(v@));
                Some(v)
            },
            _ => None,
        }
    }

    /// The elements of an array.
    pub fn elements(&self) -> (r: Option<&Vec<Json>>)
        ensures
            match r {
                Some(v) => self@ == JsonView::Array(elements(v@)),
                None => !(self@ is Array),
            },
    {
        match self {
            Json::Array(v) => {
                assert(self@->Array_0 =~= elements(v@));
                Some(v)
            },
            _ => None,
        }
    }

    /// The integer that the value is.
    pub fn integer(&self) -> (r: Option<i64>)
        ensures
            r is Some <==> self@.integer() is Some,
            r is Some ==> self@.integer() == Some(r->0 as int),
    {
        match self {
            Json::Number(t) => {
                let t = text::chars_of(t.as_str());
                let s = t.as_slice();
                if s.len() > 0 && s[0] == '-' {
                    assert(s@.skip(1) =~= s@.drop_first());
                    assert(!text::is_digit(s@[0]));
                    match text::parse_digits(text::tail(s, 1), 0x8000_0000_0000_0000) {
                        Some(n) => Some(
                            if n == 0x8000_0000_0000_0000 {
                                i64::MIN
                            } else {
                                -(n as i64)
                            },
                        ),
                        None => None,
                    }
                } else {
                    match text::parse_digits(s, u64::MAX) {
                        Some(n) => Some(
                            if n <= 0x7fff_ffff_ffff_ffff {
                                n as i64
                            } else {
                                (n as i128 - 0x1_0000_0000_0000_0000i128) as i64
                            },
                        ),
                        None => None,
                    }
                }
            },
            Json::Text(t) => text::parse_i64(text::chars_of(t.as_str()).as_slice()),
            _ => None,
        }
    }

    /// The integer that a member is.
    pub fn integer_field(&self, key: &str) -> (r: Option<i64>)
        ensures
            r is Some <==> self@.integer_field(key@) is Some,
            r is Some ==> self@.integer_field(key@) == Some(r->0 as int),
    {
        match self.field(key) {
            Some(j) => j.integer(),
            None => None,
        }
    }

    /// The integer under the first of two names that holds one.
    pub fn integer_either(&self, a: &str, b: &str) -> (r: Option<i64>)
        ensures
            r is Some <==> self@.integer_either(a@, b@) is Some,
            r is Some ==> self@.integer_either(a@, b@) == Some(r->0 as int),
    {
        match self.integer_field(a) {
            Some(n) => Some(n),
            None => self.integer_field(b),
        }
    }
}

/// The models of the elements of an array.
pub open spec fn elements(v: Seq<Json>) -> Seq<JsonView> {
    v.map_values(|j: Json| j@)
}

/// An object with the given members.
pub fn object(v: Vec<(String, Json)>) -> (r: Json)
    ensures
        r@ == JsonView::Object(members(v@)),
{
    let r = Json::Object(v);
    assert(r@->Object_0 =~= members(v@));
    r
}

/// An array of the given elements.
pub fn array(v: Vec<Json>) -> (r: Json)
    ensures
        r@ == JsonView::Array(elements(v@)),
{
    let r = Json::Array(v);
    assert(r@->Array_0 =~= elements(v@));
    r
}

/// A text value.
pub fn string(s: &str) -> (r: Json)
    ensures
        r@ == JsonView::Text(s@),
{
    Json::Text(s.to_owned())
}

/// The model of an integer.
pub open spec fn int_view(n: int) -> JsonView {
    JsonView::Number(text::integer_text(n))
}

/// An integer value.
pub fn integer_value(n: i64) -> (r: Json)
    ensures
        r@ == int_view(n as int),
{
    let mut t = String::new();
    text::push_integer(&mut t, n);
    assert(t@ =~= text::integer_text(n as int));
    Json::Number(t)
}

/// Appends a member without looking for one of the same name.
pub fn add_member(v: &mut Vec<(String, Json)>, key: &str, value: Json)
    ensures
        members(final(v)@) == members(old(v)@).push((key@, value@)),
{
    let ghost before = members(v@);
    v.push((key.to_owned(), value));
    assert(members(v@) =~= before.push((key@, value@)));
}

// Text

/// A character as it stands in a JSON string: quotes, backslashes and control characters are
/// escaped, by a letter where there is one and else by number.
pub open spec fn escaped_char(c: char) -> Seq<char> {
    let n = c as nat;
    if c == '"' || c == '\\' {
        seq!['\\', c]
    } else if c == '\u{8}' {
        seq!['\\', 'b']
    } else if c == '\t' {
        seq!['\\', 't']
    } else if c == '\n' {
        seq!['\\', 'n']
    } else if c == '\u{c}' {
        seq!['\\', 'f']
    } else if c == '\r' {
        seq!['\\', 'r']
    } else if n < 0x20 {
        seq!['\\', 'u', '0', '0', text::digit_char(n / 16), text::digit_char(n % 16)]
    } else {
        seq![c]
    }
}

/// A text as it stands in a JSON string.
pub open spec fn escaped_text(s: Seq<char>) -> Seq<char>
    decreases s.len(),
{
    if s.len() == 0 {
        Seq::empty()
    } else {
        escaped_char(s[0]) + escaped_text(s.drop_first())
    }
}

/// A text as a JSON string, quoted and escaped.
pub open spec fn json_quoted(s: Seq<char>) -> Seq<char> {
    seq!['"'] + escaped_text(s) + seq!['"']
}

/// `serde_json::to_string` of a text: the text between quotes, with the escapes that
/// [`escaped_char`] gives and every other character as it is.
#[verifier::external_body]
fn quote(s: &str) -> (r: String)
    ensures
        r@ == json_quoted(s@),
{
    serde_json::to_string(s).unwrap_or_default()
}

/// The compact JSON text of a value.
pub open spec fn rendered(j: JsonView) -> Seq<char>
    decreases j,
{
    match j {
        JsonView::Null => "null"@,
        JsonView::Bool(b) => if b { "true"@ } else { "false"@ },
        JsonView::Number(t) => t,
        JsonView::Text(t) => json_quoted(t),
        JsonView::Array(v) => "["@ + rendered_elements(v) + "]"@,
        JsonView::Object(o) => "{"@ + joined_members(in_name_order(rendered_members(o))) + "}"@,
    }
}

pub open spec fn rendered_elements(v: Seq<JsonView>) -> Seq<char>
    decreases v,
{
    if v.len() == 0 {
        Seq::empty()
    } else {
        rendered_elements(v.drop_last()) + (if v.len() > 1 { ","@ } else { Seq::empty() })
            + rendered(v[v.len() - 1])
    }
}

/// The names of members and the texts of their values.
pub open spec fn rendered_members(o: Seq<(Seq<char>, JsonView)>) -> Seq<(Seq<char>, Seq<char>)>
    decreases o,
{
    if o.len() == 0 {
        Seq::empty()
    } else {
        rendered_members(o.drop_last()).push((o[o.len() - 1].0, rendered(o[o.len() - 1].1)))
    }
}

/// Members in the order of their names, with one more in its place.
pub open spec fn with_member(
    v: Seq<(Seq<char>, Seq<char>)>,
    m: (Seq<char>, Seq<char>),
) -> Seq<(Seq<char>, Seq<char>)>
    decreases v.len(),
{
    if v.len() == 0 {
        seq![m]
    } else if text::text_before(m.0, v[0].0) {
        seq![m] + v
    } else {
        seq![v[0]] + with_member(v.drop_first(), m)
    }
}

/// Members in the order of their names.
pub open spec fn in_name_order(v: Seq<(Seq<char>, Seq<char>)>) -> Seq<(Seq<char>, Seq<char>)>
    decreases v.len(),
{
    if v.len() == 0 { v } else { with_member(in_name_order(v.drop_last()), v.last()) }
}

/// Members with commas between them.
pub open spec fn joined_members(v: Seq<(Seq<char>, Seq<char>)>) -> Seq<char>
    decreases v.len(),
{
    if v.len() == 0 {
        Seq::empty()
    } else {
        joined_members(v.drop_last()) + (if v.len() > 1 { ","@ } else { Seq::empty() })
            + json_quoted(v.last().0) + ":"@ + v.last().1
    }
}

/// Puts a member into its place.
fn insert_member(v: &mut Vec<(String, String)>, name: &str, value: String)
    ensures
        assoc::pairs(final(v)@) == with_member(assoc::pairs(old(v)@), (name@, value@)),
{
    let ghost all = assoc::pairs(v@);
    let ghost m = (name@, value@);
    let s = text::chars_of(name);
    let mut i: usize = 0;
    assert(all.skip(0) =~= all);
    assert(with_member(all, m) =~= all.take(0) + with_member(all.skip(0), m));
    while i < v.len()
        invariant
            i <= v@.len(),
            all == assoc::pairs(v@),
            v@ == old(v)@,
            s@ == name@,
            m == (name@, value@),
            with_member(all, m) == all.take(i as int) + with_member(all.skip(i as int), m),
        decreases v@.len() - i,
    {
        let ghost rest = all.skip(i as int);
        assert(rest[0] == (v@[i as int].0@, v@[i as int].1@));
        if text::comes_before(s.as_slice(), text::chars_of(v[i].0.as_str()).as_slice()) {
            v.insert(i, (name.to_owned(), value));
            assert(assoc::pairs(v@) =~= all.insert(i as int, m));
            assert(all.take(i as int) + (seq![m] + rest) =~= all.insert(i as int, m));
            return;
        }
        assert(rest.drop_first() =~= all.skip(i + 1));
        assert(all.take(i as int) + (seq![rest[0]] + with_member(all.skip(i + 1), m)) =~= all.take(
            i + 1,
        ) + with_member(all.skip(i + 1), m));
        i += 1;
    }
    v.push((name.to_owned(), value));
    assert(assoc::pairs(v@) =~= all.push(m));
    assert(all.skip(i as int) =~= Seq::empty());
    assert(all.take(i as int) + seq![m] =~= all.push(m));
}

/// Writes members with commas between them.
fn push_members(out: &mut String, v: &Vec<(String, String)>)
    ensures
        final(out)@ == old(out)@ + joined_members(assoc::pairs(v@)),
{
    let ghost all = assoc::pairs(v@);
    let mut i: usize = 0;
    assert(out@ =~= old(out)@ + joined_members(all.take(0)));
    while i < v.len()
        invariant
            i <= v@.len(),
            all == assoc::pairs(v@),
            out@ == old(out)@ + joined_members(all.take(i as int)),
        decreases v@.len() - i,
    {
        if i > 0 {
            out.append(",");
        }
        out.append(quote(v[i].0.as_str()).as_str());
        out.append(":");
        out.append(v[i].1.as_str());
        i += 1;
        assert(all.take(i as int).drop_last() =~= all.take(i - 1));
        assert(all.take(i as int).last() == (v@[i - 1].0@, v@[i - 1].1@));
        assert(out@ =~= old(out)@ + joined_members(all.take(i as int)));
    }
    assert(all.take(i as int) =~= all);
}

impl Json {
    /// Writes the compact JSON text of the value.
    fn push_text(&self, out: &mut String)
        ensures
            final(out)@ == old(out)@ + rendered(self@),
        decreases self,
    {
        match self {
            Json::Null => out.append("null"),
            Json::Bool(b) => out.append(if *b { "true" } else { "false" }),
            Json::Number(t) => out.append(t.as_str()),
            Json::Text(t) => out.append(quote(t.as_str()).as_str()),
            Json::Array(v) => {
                out.append("[");
                let ghost all = elements(v@);
                assert(self@->Array_0 =~= all);
                let mut i: usize = 0;
                assert(all.take(0) =~= Seq::empty());
                assert(out@ =~= old(out)@ + "["@ + rendered_elements(all.take(0)));
                while i < v.len()
                    invariant
                        i <= v@.len(),
                        all == elements(v@),
                        self matches Json::Array(w) && w == v,
                        out@ == old(out)@ + "["@ + rendered_elements(all.take(i as int)),
                    decreases v@.len() - i,
                {
                    let ghost before = out@;
                    if i > 0 {
                        out.append(",");
                    }
                    v[i].push_text(out);
                    i += 1;
                    assert(all.take(i as int).drop_last() =~= all.take(i - 1));
                    assert(all.take(i as int)[i - 1] == v@[i - 1]@);
                    assert(out@ =~= old(out)@ + "["@ + rendered_elements(all.take(i as int)));
                }
                assert(all.take(i as int) =~= all);
                out.append("]");
                assert(out@ =~= old(out)@ + rendered(self@));
            },
            Json::Object(v) => {
                let ghost all = members(v@);
                assert(self@->Object_0 =~= all);
                let mut pairs: Vec<(String, String)> = Vec::new();
                let mut i: usize = 0;
                assert(assoc::pairs(pairs@) =~= in_name_order(rendered_members(all.take(0))));
                while i < v.len()
                    invariant
                        i <= v@.len(),
                        all == members(v@),
                        self matches Json::Object(w) && w == v,
                        assoc::pairs(pairs@) == in_name_order(
                            rendered_members(all.take(i as int)),
                        ),
                    decreases v@.len() - i,
                {
                    let ghost before = rendered_members(all.take(i as int));
                    let mut t = String::new();
                    v[i].1.push_text(&mut t);
                    assert(t@ =~= rendered(v@[i as int].1@));
                    insert_member(&mut pairs, v[i].0.as_str(), t);
                    i += 1;
                    assert(all.take(i as int).drop_last() =~= all.take(i - 1));
                    assert(all.take(i as int)[i - 1] == (v@[i - 1].0@, v@[i - 1].1@));
                    let ghost after = rendered_members(all.take(i as int));
                    assert(after.drop_last() =~= before);
                }
                assert(all.take(i as int) =~= all);
                out.append("{");
                push_members(out, &pairs);
                out.append("}");
                assert(out@ =~= old(out)@ + rendered(self@));
            },
        }
    }

    /// The compact JSON text of the value.
    pub fn render(&self) -> (r: String)
        ensures
            r@ == rendered(self@),
    {
        let mut r = String::new();
        self.push_text(&mut r);
        assert(r@ =~= rendered(self@));
        r
    }
}

/// A JSON value as far as it is no array or object.
#[derive(Debug)]
pub enum Scalar {
    Null,
    Bool(bool),
    Number(String),
    Text(String),
    Other,
}

pub enum ScalarView {
    Null,
    Bool(bool),
    Number(Seq<char>),
    Text(Seq<char>),
    Other,
}

impl View for Scalar {
    type V = ScalarView;

    open spec fn view(&self) -> ScalarView {
        match *self {
            Scalar::Null => ScalarView::Null,
            Scalar::Bool(b) => ScalarView::Bool(b),
            Scalar::Number(t) => ScalarView::Number(t@),
            Scalar::Text(t) => ScalarView::Text(t@),
            Scalar::Other => ScalarView::Other,
        }
    }
}

/// The model of an optional scalar.
pub open spec fn scalar(r: Option<Scalar>) -> Option<ScalarView> {
    match r {
        Some(s) => Some(s@),
        None => None,
    }
}

/// The member of a given name of the object that a JSON text denotes, if it denotes one that has it.
pub uninterp spec fn json_text_member(raw: Seq<char>, key: Seq<char>) -> Option<ScalarView>;

/// `serde_json::from_str` into a value, of which one member is taken: it depends on the two texts
/// alone.
#[verifier::external_body]
pub(crate) fn text_member(raw: &str, key: &str) -> (r: Option<Scalar>)
    ensures
        scalar(r) == json_text_member(raw@, key@),
{
    let v: serde_json::Value = serde_json::from_str(raw).ok()?;
    match v.get(key)? {
        serde_json::Value::Null => Some(Scalar::Null),
        serde_json::Value::Bool(b) => Some(Scalar::Bool(*b)),
        serde_json::Value::Number(n) => Some(Scalar::Number(n.to_string())),
        serde_json::Value::String(t) => Some(Scalar::Text(t.clone())),
        serde_json::Value::Array(_) => Some(Scalar::Other),
        serde_json::Value::Object(_) => Some(Scalar::Other),
    }
}

/// The JSON text of an object of texts.
pub open spec fn json_flat_object(o: Seq<(Seq<char>, Seq<char>)>) -> Seq<char> {
    rendered(
        JsonView::Object(o.map_values(|e: (Seq<char>, Seq<char>)| (e.0, JsonView::Text(e.1)))),
    )
}

/// What a name stands for in an object of texts.
pub open spec fn flat_member(o: Seq<(Seq<char>, Seq<char>)>, key: Seq<char>) -> Option<ScalarView> {
    match assoc::lookup(o, key) {
        Some(t) => Some(ScalarView::Text(t)),
        None => None,
    }
}

/// `serde_json::to_string` of an object of texts with distinct names: the members in the order of
/// their names, each a name and a text as JSON strings with a colon between them, with commas
/// between the members and braces around them. Each member is read back from it.
#[verifier::external_body]
pub(crate) fn flat_object_text(o: Vec<(String, String)>) -> (r: String)
    requires
        assoc::distinct(assoc::pairs(o@)),
    ensures
        r@ == json_flat_object(assoc::pairs(o@)),
        forall|key: Seq<char>| #[trigger]
            json_text_member(r@, key) == flat_member(assoc::pairs(o@), key),
{
    let m: serde_json::Map<String, serde_json::Value> = o.into_iter().map(
        |e| (e.0, serde_json::Value::String(e.1)),
    ).collect();
    serde_json::to_string(&m).unwrap_or_default()
}

}
