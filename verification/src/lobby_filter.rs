//! The filter and sort language of lobby searches.
//!
//! A filter is a list of clauses `key op value` joined by `and`. What lies outside the language is
//! reported and never dropped: a filter with anything unsupported matches no lobby, so a constraint
//! that was not applied cannot look like a successful search.
use crate::assoc;
use crate::json;
use crate::json::{Json, JsonView};
use crate::numeral;
use crate::numeral::Real;
use crate::text;
use std::cmp::Ordering;
use vstd::prelude::*;

verus! {

/// What a clause or a sort term is about.
#[derive(Clone, Copy, Debug, PartialEq, Eq, Structural)]
pub enum Key {
    StringKey(u32),
    NumberKey(u32),
    MemberCount,
    MaxMemberCount,
    MemberCountRemaining,
    MembershipLock,
    AmOwner,
    AmMember,
    AmServer,
    LobbyId,
}

#[derive(Clone, Copy, Debug, PartialEq, Eq, Structural)]
pub enum Op {
    Eq,
    Ne,
    Le,
    Lt,
    Ge,
    Gt,
}

/// One constraint, with the text that it was read from.
#[derive(Clone, Debug)]
pub struct Clause {
    pub key: Key,
    pub op: Op,
    pub value: String,
    pub raw: String,
}

#[verifier::ext_equal]
pub struct ClauseView {
    pub key: Key,
    pub op: Op,
    pub value: Seq<char>,
    pub raw: Seq<char>,
}

impl View for Clause {
    type V = ClauseView;

    open spec fn view(&self) -> ClauseView {
        ClauseView { key: self.key, op: self.op, value: self.value@, raw: self.raw@ }
    }
}

/// The clauses that can be evaluated, and the text of everything that cannot.
#[derive(Clone, Debug)]
pub struct Filter {
    pub clauses: Vec<Clause>,
    pub unsupported: Vec<String>,
}

#[verifier::ext_equal]
pub struct FilterView {
    pub clauses: Seq<ClauseView>,
    pub unsupported: Seq<Seq<char>>,
}

impl View for Filter {
    type V = FilterView;

    open spec fn view(&self) -> FilterView {
        FilterView {
            clauses: self.clauses@.map_values(|c: Clause| c@),
            unsupported: text::views(self.unsupported@),
        }
    }
}

/// One term of a sort order. With `distance` it orders by the distance from that number.
#[derive(Clone, Debug)]
pub struct SortSpec {
    pub key: Key,
    pub desc: bool,
    pub distance: Option<String>,
}

#[verifier::ext_equal]
pub struct SortView {
    pub key: Key,
    pub desc: bool,
    pub distance: Option<Seq<char>>,
}

impl View for SortSpec {
    type V = SortView;

    open spec fn view(&self) -> SortView {
        SortView {
            key: self.key,
            desc: self.desc,
            distance: match self.distance {
                Some(t) => Some(t@),
                None => None,
            },
        }
    }
}

// Reading

/// A text without the ASCII white space at its start.
pub open spec fn past_space(s: Seq<char>) -> Seq<char> {
    s.skip(text::span(s, |c: char| text::is_ascii_space(c)))
}

/// How long the token at the start of a text is.
pub open spec fn token_len(s: Seq<char>) -> int {
    text::span(s, |c: char| !text::is_ascii_space(c))
}

/// The next token of a text, empty where there is none, and what follows it.
pub open spec fn token(s: Seq<char>) -> (Seq<char>, Seq<char>) {
    let t = past_space(s);
    (t.take(token_len(t)), t.skip(token_len(t)))
}

/// The content of a quoted text whose opening quote is already read, and what follows the closing
/// quote. A doubled quote stands for one.
pub open spec fn quoted(s: Seq<char>) -> Option<(Seq<char>, Seq<char>)>
    decreases s.len(),
{
    if s.len() == 0 {
        None
    } else if s[0] != '\'' {
        match quoted(s.skip(1)) {
            Some((v, rest)) => Some((seq![s[0]] + v, rest)),
            None => None,
        }
    } else if s.len() > 1 && s[1] == '\'' {
        match quoted(s.skip(2)) {
            Some((v, rest)) => Some((seq!['\''] + v, rest)),
            None => None,
        }
    } else {
        Some((Seq::empty(), s.skip(1)))
    }
}

/// A value, quoted or bare, and what follows it.
pub open spec fn operand(s: Seq<char>) -> Option<(Seq<char>, Seq<char>)> {
    let t = past_space(s);
    if t.len() > 0 && t[0] == '\'' {
        quoted(t.skip(1))
    } else if t.len() == 0 {
        None
    } else {
        Some(token(t))
    }
}

/// The number of a search property, from 1 to 30.
pub open spec fn property_number(tok: Seq<char>, prefix: Seq<char>) -> Option<u32> {
    if text::begins(tok, prefix) {
        match text::unsigned(tok.skip(prefix.len() as int), u32::MAX as nat) {
            Some(n) if 1 <= n <= 30 => Some(n as u32),
            _ => None,
        }
    } else {
        None
    }
}

pub open spec fn key_of(tok: Seq<char>) -> Option<Key> {
    if property_number(tok, "string_key"@) is Some {
        Some(Key::StringKey(property_number(tok, "string_key"@)->0))
    } else if property_number(tok, "number_key"@) is Some {
        Some(Key::NumberKey(property_number(tok, "number_key"@)->0))
    } else if tok == "lobby/memberCount"@ || tok == "lobby/currentMemberCount"@ {
        Some(Key::MemberCount)
    } else if tok == "lobby/maxMemberCount"@ {
        Some(Key::MaxMemberCount)
    } else if tok == "lobby/memberCountRemaining"@ {
        Some(Key::MemberCountRemaining)
    } else if tok == "lobby/membershipLock"@ {
        Some(Key::MembershipLock)
    } else if tok == "lobby/amOwner"@ {
        Some(Key::AmOwner)
    } else if tok == "lobby/amMember"@ {
        Some(Key::AmMember)
    } else if tok == "lobby/amServer"@ {
        Some(Key::AmServer)
    } else if tok == "lobbyId"@ || tok == "lobby/lobbyId"@ || tok == "LobbyId"@ {
        Some(Key::LobbyId)
    } else {
        None
    }
}

pub open spec fn op_of(tok: Seq<char>) -> Option<Op> {
    if tok == "eq"@ {
        Some(Op::Eq)
    } else if tok == "ne"@ {
        Some(Op::Ne)
    } else if tok == "le"@ {
        Some(Op::Le)
    } else if tok == "lt"@ {
        Some(Op::Lt)
    } else if tok == "ge"@ {
        Some(Op::Ge)
    } else if tok == "gt"@ {
        Some(Op::Gt)
    } else {
        None
    }
}

pub open spec fn bool_of(s: Seq<char>) -> Option<bool> {
    if s == "true"@ {
        Some(true)
    } else if s == "false"@ {
        Some(false)
    } else {
        None
    }
}

/// A key whose values are numbers.
pub open spec fn is_numeric(key: Key) -> bool {
    key is NumberKey || key is MemberCount || key is MaxMemberCount || key is MemberCountRemaining
}

/// A key whose values are truth values.
pub open spec fn is_flag(key: Key) -> bool {
    key is AmOwner || key is AmMember || key is AmServer
}

/// The key takes the operator and a value of this form: numbers are ordered, the rest is only
/// equal or not.
pub open spec fn is_supported(c: ClauseView) -> bool {
    if is_numeric(c.key) {
        numeral::is_numeral(text::trimmed(c.value))
    } else {
        (c.op is Eq || c.op is Ne) && (is_flag(c.key) ==> bool_of(c.value) is Some)
    }
}

impl FilterView {
    pub open spec fn nothing() -> FilterView {
        FilterView { clauses: Seq::empty(), unsupported: Seq::empty() }
    }

    /// A filter that is one unsupported text.
    pub open spec fn refusing(raw: Seq<char>) -> FilterView {
        FilterView { clauses: Seq::empty(), unsupported: seq![raw] }
    }

    /// What a complete clause contributes.
    pub open spec fn one(key: Seq<char>, op: Op, value: Seq<char>, raw: Seq<char>) -> FilterView {
        let c = ClauseView { key: key_of(key)->0, op, value, raw };
        if key_of(key) is Some && is_supported(c) {
            FilterView { clauses: seq![c], unsupported: Seq::empty() }
        } else {
            FilterView::refusing(raw)
        }
    }

    /// Two filters one after the other.
    pub open spec fn then_also(self, other: FilterView) -> FilterView {
        FilterView {
            clauses: self.clauses + other.clauses,
            unsupported: self.unsupported + other.unsupported,
        }
    }
}

/// The filter that a text denotes. Text that does not continue as a clause is refused to its end.
pub open spec fn filter_of(s: Seq<char>) -> FilterView
    decreases s.len(),
{
    let t = past_space(s);
    let (key, r1) = token(t);
    let (op, r2) = token(r1);
    if t.len() == 0 {
        FilterView::nothing()
    } else if key == "or"@ || op_of(op) is None || operand(r2) is None {
        FilterView::refusing(text::trimmed(t))
    } else {
        let (value, r3) = operand(r2)->0;
        let raw = text::trimmed(t.take(t.len() - r3.len()));
        let first = FilterView::one(key, op_of(op)->0, value, raw);
        let (join, r4) = token(r3);
        if past_space(r3).len() == 0 {
            first
        } else if join != "and"@ {
            first.then_also(FilterView::refusing(text::trimmed(t)))
        } else {
            proof {
                lemma_clause_shrinks(s);
            }
            first.then_also(filter_of(r4))
        }
    }
}

/// What follows a token is no longer than the text, and shorter where there is a token.
proof fn lemma_token(s: Seq<char>)
    ensures
        past_space(s).len() <= s.len(),
        token(s).1.len() <= past_space(s).len(),
        token(s).0.len() + token(s).1.len() == past_space(s).len(),
        token(s).0.len() > 0 <==> past_space(s).len() > 0,
{
    let p = |c: char| text::is_ascii_space(c);
    let q = |c: char| !text::is_ascii_space(c);
    text::lemma_span_is(s, p);
    let t = past_space(s);
    text::lemma_span_is(t, q);
    if t.len() > 0 {
        assert(t[0] == s[text::span(s, p)]);
        assert(!p(t[0]));
        assert(q(t[0]));
    }
}

/// What follows a quoted text is shorter than it.
proof fn lemma_quoted(s: Seq<char>)
    ensures
        quoted(s) is Some ==> (quoted(s)->0).1.len() < s.len(),
    decreases s.len(),
{
    if s.len() > 0 {
        if s[0] != '\'' {
            lemma_quoted(s.skip(1));
        } else if s.len() > 1 && s[1] == '\'' {
            lemma_quoted(s.skip(2));
        }
    }
}

/// What follows an operand is shorter than the text.
proof fn lemma_operand(s: Seq<char>)
    ensures
        operand(s) is Some ==> (operand(s)->0).1.len() < s.len(),
{
    lemma_token(s);
    let t = past_space(s);
    if t.len() > 0 {
        lemma_quoted(t.skip(1));
        lemma_token(t);
        let p = |c: char| text::is_ascii_space(c);
        text::lemma_span_is(s, p);
        assert(t[0] == s[text::span(s, p)]);
        text::lemma_span(t, p, 0);
        assert(past_space(t) =~= t);
    }
}

/// What follows a clause and its `and` is shorter than the text.
pub proof fn lemma_clause_shrinks(s: Seq<char>)
    ensures
        ({
            let t = past_space(s);
            let r2 = token(token(t).1).1;
            operand(r2) is Some ==> {
                let r3 = (operand(r2)->0).1;
                r3.len() < s.len() && r3.len() <= t.len() && token(r3).1.len() < s.len()
            }
        }),
{
    let t = past_space(s);
    lemma_token(s);
    lemma_token(t);
    lemma_token(token(t).1);
    let r2 = token(token(t).1).1;
    lemma_operand(r2);
    if operand(r2) is Some {
        lemma_token((operand(r2)->0).1);
    }
}

/// Skips ASCII white space.
fn skip_space(s: &[char]) -> (r: &[char])
    ensures
        r@ == past_space(s@),
{
    let mut i: usize = 0;
    while i < s.len() && text::ascii_space(s[i])
        invariant
            i <= s@.len(),
            forall|j: int| 0 <= j < i ==> text::is_ascii_space(#[trigger] s@[j]),
        decreases s@.len() - i,
    {
        i += 1;
    }
    proof {
        text::lemma_span(s@, |c: char| text::is_ascii_space(c), i as int);
    }
    text::tail(s, i)
}

/// Reads the next token, empty where there is none.
fn take_token(s: &[char]) -> (r: (&[char], &[char]))
    ensures
        (r.0@, r.1@) == token(s@),
{
    let t = skip_space(s);
    let mut i: usize = 0;
    while i < t.len() && !text::ascii_space(t[i])
        invariant
            i <= t@.len(),
            forall|j: int| 0 <= j < i ==> !text::is_ascii_space(#[trigger] t@[j]),
        decreases t@.len() - i,
    {
        i += 1;
    }
    proof {
        text::lemma_span(t@, |c: char| !text::is_ascii_space(c), i as int);
    }
    (text::head(t, i), text::tail(t, i))
}

/// Reads a quoted text whose opening quote is already read.
fn take_quoted(s: &[char]) -> (r: Option<(Vec<char>, &[char])>)
    ensures
        match r {
            Some((v, rest)) => quoted(s@) == Some((v@, rest@)),
            None => quoted(s@) is None,
        },
{
    let mut out: Vec<char> = Vec::new();
    let n: usize = s.len();
    let mut i: usize = 0;
    assert(s@.skip(0) =~= s@);
    assert(match quoted(s@) {
        Some((v, rest)) => out@ + v =~= v,
        None => true,
    });
    while i < n
        invariant
            i <= n,
            n == s@.len(),
            quoted(s@) == match quoted(s@.skip(i as int)) {
                Some((v, rest)) => Some((out@ + v, rest)),
                None => None,
            },
        decreases n - i,
    {
        let ghost here = s@.skip(i as int);
        let ghost sofar = out@;
        if s[i] != '\'' {
            out.push(s[i]);
            i += 1;
            assert(here.skip(1) =~= s@.skip(i as int));
            assert(match quoted(here.skip(1)) {
                Some((v, rest)) => sofar + (seq![here[0]] + v) =~= out@ + v,
                None => true,
            });
        } else if i + 1 < n && s[i + 1] == '\'' {
            out.push('\'');
            i += 2;
            assert(here.skip(2) =~= s@.skip(i as int));
            assert(match quoted(here.skip(2)) {
                Some((v, rest)) => sofar + (seq!['\''] + v) =~= out@ + v,
                None => true,
            });
        } else {
            assert(here.skip(1) =~= s@.skip(i + 1));
            assert(out@ + Seq::<char>::empty() =~= out@);
            return Some((out, text::tail(s, i + 1)));
        }
    }
    None
}

/// Reads a value, quoted or bare.
fn take_operand(s: &[char]) -> (r: Option<(Vec<char>, &[char])>)
    ensures
        match r {
            Some((v, rest)) => operand(s@) == Some((v@, rest@)),
            None => operand(s@) is None,
        },
{
    let t = skip_space(s);
    if t.len() == 0 {
        return None;
    }
    if t[0] == '\'' {
        return take_quoted(text::tail(t, 1));
    }
    let (v, rest) = take_token(t);
    let mut out: Vec<char> = Vec::new();
    out.extend_from_slice(v);
    assert(out@ =~= v@);
    Some((out, rest))
}

fn parse_property(tok: &[char], prefix: &str) -> (r: Option<u32>)
    ensures
        r == property_number(tok@, prefix@),
{
    let p = text::chars_of(prefix);
    if !text::starts_with(tok, p.as_slice()) {
        return None;
    }
    match text::parse_unsigned(text::tail(tok, p.len()), u32::MAX as u64) {
        Some(n) => {
            if 1 <= n && n <= 30 {
                Some(n as u32)
            } else {
                None
            }
        },
        None => None,
    }
}

fn parse_key(tok: &[char]) -> (r: Option<Key>)
    ensures
        r == key_of(tok@),
{
    if let Some(n) = parse_property(tok, "string_key") {
        return Some(Key::StringKey(n));
    }
    if let Some(n) = parse_property(tok, "number_key") {
        return Some(Key::NumberKey(n));
    }
    if text::is_text(tok, "lobby/memberCount") || text::is_text(tok, "lobby/currentMemberCount") {
        Some(Key::MemberCount)
    } else if text::is_text(tok, "lobby/maxMemberCount") {
        Some(Key::MaxMemberCount)
    } else if text::is_text(tok, "lobby/memberCountRemaining") {
        Some(Key::MemberCountRemaining)
    } else if text::is_text(tok, "lobby/membershipLock") {
        Some(Key::MembershipLock)
    } else if text::is_text(tok, "lobby/amOwner") {
        Some(Key::AmOwner)
    } else if text::is_text(tok, "lobby/amMember") {
        Some(Key::AmMember)
    } else if text::is_text(tok, "lobby/amServer") {
        Some(Key::AmServer)
    } else if text::is_text(tok, "lobbyId") || text::is_text(tok, "lobby/lobbyId") || text::is_text(
        tok,
        "LobbyId",
    ) {
        Some(Key::LobbyId)
    } else {
        None
    }
}

fn parse_op(tok: &[char]) -> (r: Option<Op>)
    ensures
        r == op_of(tok@),
{
    if text::is_text(tok, "eq") {
        Some(Op::Eq)
    } else if text::is_text(tok, "ne") {
        Some(Op::Ne)
    } else if text::is_text(tok, "le") {
        Some(Op::Le)
    } else if text::is_text(tok, "lt") {
        Some(Op::Lt)
    } else if text::is_text(tok, "ge") {
        Some(Op::Ge)
    } else if text::is_text(tok, "gt") {
        Some(Op::Gt)
    } else {
        None
    }
}

fn parse_bool(s: &[char]) -> (r: Option<bool>)
    ensures
        r == bool_of(s@),
{
    if text::is_text(s, "true") {
        Some(true)
    } else if text::is_text(s, "false") {
        Some(false)
    } else {
        None
    }
}

/// Whether a key's values are numbers.
fn numeric(key: Key) -> (r: bool)
    ensures
        r == is_numeric(key),
{
    match key {
        Key::NumberKey(_) => true,
        Key::MemberCount => true,
        Key::MaxMemberCount => true,
        Key::MemberCountRemaining => true,
        _ => false,
    }
}

/// Whether a clause can be evaluated.
pub fn clause_supported(c: &Clause) -> (r: bool)
    ensures
        r == is_supported(c@),
{
    let value = text::chars_of(c.value.as_str());
    if numeric(c.key) {
        return numeral::denotes_number(text::trim(value.as_slice()));
    }
    let equality = match c.op {
        Op::Eq => true,
        Op::Ne => true,
        _ => false,
    };
    match c.key {
        Key::AmOwner => equality && parse_bool(value.as_slice()).is_some(),
        Key::AmMember => equality && parse_bool(value.as_slice()).is_some(),
        Key::AmServer => equality && parse_bool(value.as_slice()).is_some(),
        _ => equality,
    }
}

impl Filter {
    /// The text of every clause, or rest of a filter, that lies outside the language.
    pub fn unsupported(&self) -> (r: &[String])
        ensures
            text::views(r@) == self@.unsupported,
    {
        self.unsupported.as_slice()
    }

    /// Adds a text that lies outside the language.
    fn refuse(&mut self, raw: &[char])
        ensures
            final(self)@ == old(self)@.then_also(FilterView::refusing(raw@)),
    {
        let s = text::text_of(raw);
        self.unsupported.push(s);
        assert(self@ =~= old(self)@.then_also(FilterView::refusing(raw@)));
    }

    /// Adds a complete clause.
    fn include_clause(&mut self, key: &[char], op: Op, value: &[char], raw: &[char])
        ensures
            final(self)@ == old(self)@.then_also(FilterView::one(key@, op, value@, raw@)),
    {
        match parse_key(key) {
            Some(k) => {
                let c = Clause { key: k, op, value: text::text_of(value), raw: text::text_of(raw) };
                assert(c@ == (ClauseView { key: k, op, value: value@, raw: raw@ }));
                if clause_supported(&c) {
                    self.clauses.push(c);
                    assert(self@ =~= old(self)@.then_also(
                        FilterView::one(key@, op, value@, raw@),
                    ));
                } else {
                    self.refuse(raw);
                }
            },
            None => self.refuse(raw),
        }
    }
}

/// Reads a filter.
pub fn parse_filter(s: &str) -> (r: Filter)
    ensures
        r@ == filter_of(s@),
{
    let all = text::chars_of(s);
    let mut out = Filter { clauses: Vec::new(), unsupported: Vec::new() };
    let mut rest: &[char] = all.as_slice();
    assert(out@ =~= FilterView::nothing());
    assert(out@.then_also(filter_of(rest@)) =~= filter_of(rest@));
    let mut more = true;
    while more
        invariant
            more ==> out@.then_also(filter_of(rest@)) == filter_of(s@),
            !more ==> out@ == filter_of(s@),
        decreases rest@.len() + (if more { 1int } else { 0 }),
    {
        let ghost before = out@;
        let t = skip_space(rest);
        proof {
            lemma_token(rest@);
            lemma_token(t@);
            lemma_clause_shrinks(rest@);
        }
        if t.len() == 0 {
            assert(before.then_also(FilterView::nothing()) =~= before);
            more = false;
        } else {
            let (key, r1) = take_token(t);
            let (op_token, r2) = take_token(r1);
            match (text::is_text(key, "or"), parse_op(op_token), take_operand(r2)) {
                (false, Some(op), Some((value, r3))) => {
                    let raw = text::trim(text::head(t, t.len() - r3.len()));
                    out.include_clause(key, op, value.as_slice(), raw);
                    let ghost first = FilterView::one(key@, op, value@, raw@);
                    let left = skip_space(r3);
                    if left.len() == 0 {
                        more = false;
                    } else {
                        let (join, r4) = take_token(r3);
                        if text::is_text(join, "and") {
                            rest = r4;
                            assert(before.then_also(first).then_also(filter_of(r4@))
                                =~= before.then_also(first.then_also(filter_of(r4@))));
                        } else {
                            out.refuse(text::trim(t));
                            assert(out@ =~= before.then_also(
                                first.then_also(FilterView::refusing(text::trimmed(t@))),
                            ));
                            more = false;
                        }
                    }
                },
                _ => {
                    out.refuse(text::trim(t));
                    more = false;
                },
            }
        }
    }
    out
}

/// `distance{key = number}`: orders by the distance of a numeric property from a number.
pub open spec fn distance_term(inner: Seq<char>) -> Option<SortView> {
    let k = text::find(inner, '=');
    let key = key_of(text::trimmed(inner.take(k)));
    let target = text::trimmed(inner.skip(k + 1));
    if k < inner.len() && key is Some && key->0 is NumberKey && numeral::is_numeral(target) {
        Some(SortView { key: key->0, desc: false, distance: Some(target) })
    } else {
        None
    }
}

/// `key asc` or `key desc`, with a numeric key.
pub open spec fn plain_term(term: Seq<char>) -> Option<SortView> {
    let (first, r1) = text::word(term);
    let (dir, r2) = text::word(r1);
    let (extra, _) = text::word(r2);
    let key = key_of(first);
    if extra.len() == 0 && (dir == "asc"@ || dir == "desc"@) && key is Some && is_numeric(key->0) {
        Some(SortView { key: key->0, desc: dir == "desc"@, distance: None })
    } else {
        None
    }
}

/// What one term of a sort order denotes.
pub open spec fn sort_term(term: Seq<char>) -> Option<SortView> {
    if text::begins(term, "distance{"@) && text::ends(term.skip(9), "}"@) {
        distance_term(term.subrange(9, term.len() - 1))
    } else {
        plain_term(term)
    }
}

/// The terms of a sort order that can be applied, and the text of those that cannot.
#[verifier::ext_equal]
pub struct OrderView {
    pub specs: Seq<SortView>,
    pub bad: Seq<Seq<char>>,
}

impl OrderView {
    /// What one term, with the white space around it, contributes.
    pub open spec fn one(raw: Seq<char>) -> OrderView {
        let term = text::trimmed(raw);
        if term.len() == 0 {
            OrderView { specs: Seq::empty(), bad: Seq::empty() }
        } else {
            match sort_term(term) {
                Some(spec) => OrderView { specs: seq![spec], bad: Seq::empty() },
                None => OrderView { specs: Seq::empty(), bad: seq![term] },
            }
        }
    }

    /// Two orders one after the other.
    pub open spec fn then_also(self, other: OrderView) -> OrderView {
        OrderView { specs: self.specs + other.specs, bad: self.bad + other.bad }
    }
}

/// The order that a text denotes: terms separated by commas.
pub open spec fn order_of(s: Seq<char>) -> OrderView
    decreases s.len(),
{
    let k = text::find(s, ',');
    if 0 <= k < s.len() {
        OrderView::one(s.take(k)).then_also(order_of(s.skip(k + 1)))
    } else {
        OrderView::one(s)
    }
}

fn parse_distance(inner: &[char]) -> (r: Option<SortSpec>)
    ensures
        match r {
            Some(spec) => distance_term(inner@) == Some(spec@),
            None => distance_term(inner@) is None,
        },
{
    let k: usize = text::find_char(inner, '=');
    if k == inner.len() {
        return None;
    }
    let target = text::trim(text::tail(inner, k + 1));
    match parse_key(text::trim(text::head(inner, k))) {
        Some(Key::NumberKey(n)) => {
            if numeral::denotes_number(target) {
                Some(
                    SortSpec {
                        key: Key::NumberKey(n),
                        desc: false,
                        distance: Some(text::text_of(target)),
                    },
                )
            } else {
                None
            }
        },
        _ => None,
    }
}

fn parse_plain_term(term: &[char]) -> (r: Option<SortSpec>)
    ensures
        match r {
            Some(spec) => plain_term(term@) == Some(spec@),
            None => plain_term(term@) is None,
        },
{
    let (first, r1) = text::take_word(term);
    let (dir, r2) = text::take_word(r1);
    let (extra, _rest) = text::take_word(r2);
    let desc = text::is_text(dir, "desc");
    if extra.len() > 0 || !(desc || text::is_text(dir, "asc")) {
        return None;
    }
    match parse_key(first) {
        Some(key) => {
            if numeric(key) {
                Some(SortSpec { key, desc, distance: None })
            } else {
                None
            }
        },
        None => None,
    }
}

fn parse_term(term: &[char]) -> (r: Option<SortSpec>)
    ensures
        match r {
            Some(spec) => sort_term(term@) == Some(spec@),
            None => sort_term(term@) is None,
        },
{
    let open = text::chars_of("distance{");
    proof {
        reveal_strlit("distance{");
        reveal_strlit("}");
    }
    if text::starts_with(term, open.as_slice()) && text::ends_with(
        text::tail(term, 9),
        text::chars_of("}").as_slice(),
    ) {
        return parse_distance(text::part(term, 9, term.len() - 1));
    }
    parse_plain_term(term)
}

/// Reads a sort order: the terms that can be applied and the text of those that cannot. A term
/// that is not applied can only change the order of a result, never its rows.
pub fn parse_sort(s: &str) -> (r: (Vec<SortSpec>, Vec<String>))
    ensures
        order_of(s@) == (OrderView {
            specs: r.0@.map_values(|t: SortSpec| t@),
            bad: text::views(r.1@),
        }),
{
    let all = text::chars_of(s);
    let mut specs: Vec<SortSpec> = Vec::new();
    let mut bad: Vec<String> = Vec::new();
    let n: usize = all.len();
    let mut from: usize = 0;
    let mut more = true;
    assert(all@.skip(0) =~= s@);
    assert(order_of(s@) =~= (OrderView {
        specs: specs@.map_values(|t: SortSpec| t@),
        bad: text::views(bad@),
    }).then_also(order_of(all@.skip(0))));
    while more
        invariant
            from <= n,
            n == all@.len(),
            all@ == s@,
            more ==> order_of(s@) == (OrderView {
                specs: specs@.map_values(|t: SortSpec| t@),
                bad: text::views(bad@),
            }).then_also(order_of(all@.skip(from as int))),
            !more ==> order_of(s@) == (OrderView {
                specs: specs@.map_values(|t: SortSpec| t@),
                bad: text::views(bad@),
            }),
        decreases n - from + (if more { 1int } else { 0 }),
    {
        let ghost before = OrderView {
            specs: specs@.map_values(|t: SortSpec| t@),
            bad: text::views(bad@),
        };
        let rest = text::tail(all.as_slice(), from);
        let k: usize = text::find_char(rest, ',');
        let raw = text::head(rest, k);
        let term = text::trim(raw);
        if term.len() > 0 {
            match parse_term(term) {
                Some(spec) => specs.push(spec),
                None => bad.push(text::text_of(term)),
            }
        }
        let ghost after = OrderView {
            specs: specs@.map_values(|t: SortSpec| t@),
            bad: text::views(bad@),
        };
        assert(after =~= before.then_also(OrderView::one(raw@)));
        if k < rest.len() {
            assert(rest@.skip(k + 1) =~= all@.skip(from + k + 1));
            assert(after.then_also(order_of(rest@.skip(k + 1))) =~= before.then_also(
                order_of(rest@),
            ));
            from = from + k + 1;
        } else {
            assert(rest@.take(k as int) =~= rest@);
            more = false;
        }
    }
    (specs, bad)
}

// Evaluating

/// The value of each numeral that an evaluation reads, and the distances between values. The
/// caller fills it in, having floating point.
#[derive(Clone, Debug)]
pub struct Numerals {
    pub values: Vec<(String, Real)>,
    /// Two values and their distance.
    pub gaps: Vec<(Real, Real, Real)>,
}

#[verifier::ext_equal]
pub struct NumeralsView {
    pub values: Seq<(Seq<char>, Real)>,
    pub gaps: Seq<(Real, Real, Real)>,
}

impl View for Numerals {
    type V = NumeralsView;

    open spec fn view(&self) -> NumeralsView {
        NumeralsView {
            values: self.values@.map_values(|e: (String, Real)| (e.0@, e.1)),
            gaps: self.gaps@,
        }
    }
}

/// What the first entry for a numeral says; without an entry it is not a number.
pub open spec fn value_in(values: Seq<(Seq<char>, Real)>, s: Seq<char>) -> Real
    decreases values.len(),
{
    if values.len() == 0 {
        Real::Nan
    } else if values[0].0 == s {
        values[0].1
    } else {
        value_in(values.drop_first(), s)
    }
}

/// What the first entry for two values says; without an entry it is not a number.
pub open spec fn gap_in(gaps: Seq<(Real, Real, Real)>, a: Real, b: Real) -> Real
    decreases gaps.len(),
{
    if gaps.len() == 0 {
        Real::Nan
    } else if gaps[0].0 == a && gaps[0].1 == b {
        gaps[0].2
    } else {
        gap_in(gaps.drop_first(), a, b)
    }
}

impl NumeralsView {
    pub open spec fn value(self, s: Seq<char>) -> Real {
        value_in(self.values, s)
    }

    pub open spec fn gap(self, a: Real, b: Real) -> Real {
        gap_in(self.gaps, a, b)
    }
}

impl Numerals {
    /// The value of a numeral.
    fn value(&self, s: &[char]) -> (r: Real)
        ensures
            r == self@.value(s@),
    {
        let ghost all = self@.values;
        let mut i: usize = 0;
        assert(all.skip(0) =~= all);
        while i < self.values.len()
            invariant
                i <= self.values@.len(),
                all == self@.values,
                value_in(all, s@) == value_in(all.skip(i as int), s@),
            decreases self.values@.len() - i,
        {
            let e = &self.values[i];
            assert(all.skip(i as int)[0] == (e.0@, e.1));
            assert(all.skip(i as int).drop_first() =~= all.skip(i + 1));
            if text::is_text(s, e.0.as_str()) {
                return e.1;
            }
            i += 1;
        }
        Real::Nan
    }

    /// The distance between two values.
    fn gap(&self, a: Real, b: Real) -> (r: Real)
        ensures
            r == self@.gap(a, b),
    {
        let ghost all = self.gaps@;
        let mut i: usize = 0;
        assert(all.skip(0) =~= all);
        while i < self.gaps.len()
            invariant
                i <= self.gaps@.len(),
                all == self.gaps@,
                gap_in(all, a, b) == gap_in(all.skip(i as int), a, b),
            decreases self.gaps@.len() - i,
        {
            let e = self.gaps[i];
            assert(all.skip(i as int)[0] == e);
            assert(all.skip(i as int).drop_first() =~= all.skip(i + 1));
            if e.0 == a && e.1 == b {
                return e.2;
            }
            i += 1;
        }
        Real::Nan
    }
}

/// What a search can see of a lobby.
pub struct LobbyView<'a> {
    pub id: &'a str,
    pub max_players: u32,
    pub current_members: u32,
    pub membership_lock: &'a str,
    pub search_data: &'a Vec<(String, Json)>,
    pub owner_id: &'a str,
    pub viewer_id: Option<&'a str>,
    pub viewer_is_member: bool,
    pub has_server: bool,
}

#[verifier::ext_equal]
pub struct LobbyModel {
    pub id: Seq<char>,
    pub max_players: u32,
    pub current_members: u32,
    pub membership_lock: Seq<char>,
    pub search_data: Seq<(Seq<char>, JsonView)>,
    pub owner_id: Seq<char>,
    pub viewer_id: Option<Seq<char>>,
    pub viewer_is_member: bool,
    pub has_server: bool,
}

impl<'a> View for LobbyView<'a> {
    type V = LobbyModel;

    open spec fn view(&self) -> LobbyModel {
        LobbyModel {
            id: self.id@,
            max_players: self.max_players,
            current_members: self.current_members,
            membership_lock: self.membership_lock@,
            search_data: json::members(self.search_data@),
            owner_id: self.owner_id@,
            viewer_id: match self.viewer_id {
                Some(v) => Some(v@),
                None => None,
            },
            viewer_is_member: self.viewer_is_member,
            has_server: self.has_server,
        }
    }
}

/// The numeral that a property is, if it is one. A truth value counts as 1 or 0.
pub open spec fn as_numeral(j: JsonView) -> Option<Seq<char>> {
    match j {
        JsonView::Number(t) => Some(t),
        JsonView::Text(t) => if numeral::is_numeral(text::trimmed(t)) {
            Some(text::trimmed(t))
        } else {
            None
        },
        JsonView::Bool(b) => Some(if b { "1"@ } else { "0"@ }),
        _ => None,
    }
}

/// The text that a property is, if it is one. A truth value counts as 1 or 0.
pub open spec fn as_text(j: JsonView) -> Option<Seq<char>> {
    match j {
        JsonView::Number(t) => Some(t),
        JsonView::Text(t) => Some(t),
        JsonView::Bool(b) => Some(if b { "1"@ } else { "0"@ }),
        _ => None,
    }
}

impl LobbyModel {
    /// What the lobby published under a name.
    pub open spec fn property(self, prefix: Seq<char>, n: u32) -> Option<JsonView> {
        assoc::lookup(self.search_data, prefix + text::decimal(n as nat))
    }

    pub open spec fn string(self, n: u32) -> Option<Seq<char>> {
        match self.property("string_key"@, n) {
            Some(j) => as_text(j),
            None => None,
        }
    }

    pub open spec fn number(self, n: u32) -> Option<Seq<char>> {
        match self.property("number_key"@, n) {
            Some(j) => as_numeral(j),
            None => None,
        }
    }

    /// The numeral that a numeric key stands for in this lobby.
    pub open spec fn numeral(self, key: Key) -> Option<Seq<char>> {
        match key {
            Key::NumberKey(n) => self.number(n),
            Key::MemberCount => Some(text::integer_text(self.current_members as int)),
            Key::MaxMemberCount => Some(text::integer_text(self.max_players as int)),
            Key::MemberCountRemaining => Some(text::integer_text(self.max_players - self.current_members)),
            _ => None,
        }
    }

    /// The truth value that a flag key stands for in this lobby.
    pub open spec fn flag(self, key: Key) -> bool {
        match key {
            Key::AmOwner => self.viewer_id is Some && self.viewer_id->0.len() > 0
                && self.viewer_id->0 == self.owner_id,
            Key::AmMember => self.viewer_is_member,
            _ => self.has_server,
        }
    }
}

/// How two doubles compare. Nothing but `ne` holds of what is not a number.
pub open spec fn compares(a: Real, b: Real, op: Op) -> bool {
    match (a, b) {
        (Real::Rank(x), Real::Rank(y)) => match op {
            Op::Eq => x == y,
            Op::Ne => x != y,
            Op::Le => x <= y,
            Op::Lt => x < y,
            Op::Ge => x >= y,
            Op::Gt => x > y,
        },
        _ => op is Ne,
    }
}

/// Equality or its opposite; the other operators say nothing of what has no order.
pub open spec fn equality(equal: bool, op: Op) -> Option<bool> {
    match op {
        Op::Eq => Some(equal),
        Op::Ne => Some(!equal),
        _ => None,
    }
}

/// Whether a clause holds of a lobby; `None` where the clause lies outside the language. A
/// constraint on a property that the lobby does not have is not met.
pub open spec fn holds(c: ClauseView, l: LobbyModel, n: NumeralsView) -> Option<bool> {
    if is_numeric(c.key) {
        if !numeral::is_numeral(text::trimmed(c.value)) {
            None
        } else {
            match l.numeral(c.key) {
                Some(t) => Some(compares(n.value(t), n.value(text::trimmed(c.value)), c.op)),
                None => Some(false),
            }
        }
    } else if is_flag(c.key) {
        match bool_of(c.value) {
            Some(want) => equality(l.flag(c.key) == want, c.op),
            None => None,
        }
    } else {
        match c.key {
            Key::StringKey(k) => match l.string(k) {
                Some(t) => equality(t == c.value, c.op),
                None => Some(false),
            },
            Key::LobbyId => equality(l.id == c.value, c.op),
            _ => equality(text::lowered(l.membership_lock) == text::lowered(c.value), c.op),
        }
    }
}

impl FilterView {
    /// Every clause holds, and there is nothing besides clauses.
    pub open spec fn accepts(self, l: LobbyModel, n: NumeralsView) -> bool {
        self.unsupported.len() == 0 && forall|i: int|
            0 <= i < self.clauses.len() ==> holds(#[trigger] self.clauses[i], l, n) == Some(true)
    }
}

/// The numeral that a property is.
fn numeral_text(j: &Json) -> (r: Option<Vec<char>>)
    ensures
        match r {
            Some(t) => as_numeral(j@) == Some(t@),
            None => as_numeral(j@) is None,
        },
{
    match j {
        Json::Number(t) => Some(text::chars_of(t.as_str())),
        Json::Text(t) => {
            let all = text::chars_of(t.as_str());
            let inner = text::trim(all.as_slice());
            if numeral::denotes_number(inner) {
                let mut out: Vec<char> = Vec::new();
                out.extend_from_slice(inner);
                assert(out@ =~= inner@);
                Some(out)
            } else {
                None
            }
        },
        Json::Bool(b) => Some(text::chars_of(if *b { "1" } else { "0" })),
        _ => None,
    }
}

/// The text that a property is.
pub fn property_text(j: &Json) -> (r: Option<Vec<char>>)
    ensures
        match r {
            Some(t) => as_text(j@) == Some(t@),
            None => as_text(j@) is None,
        },
{
    match j {
        Json::Number(t) => Some(text::chars_of(t.as_str())),
        Json::Text(t) => Some(text::chars_of(t.as_str())),
        Json::Bool(b) => Some(text::chars_of(if *b { "1" } else { "0" })),
        _ => None,
    }
}

/// The decimal text of an integer.
fn integer_chars(n: i64) -> (r: Vec<char>)
    ensures
        r@ == text::integer_text(n as int),
{
    let mut t = String::new();
    text::push_integer(&mut t, n);
    assert(t@ =~= text::integer_text(n as int));
    text::chars_of(t.as_str())
}

impl<'a> LobbyView<'a> {
    fn property(&self, prefix: &str, n: u32) -> (r: Option<&Json>)
        ensures
            match r {
                Some(j) => self@.property(prefix@, n) == Some(j@),
                None => self@.property(prefix@, n) is None,
            },
    {
        let mut name = String::new();
        name.append(prefix);
        text::push_decimal(&mut name, n as u64);
        assert(name@ =~= prefix@ + text::decimal(n as nat));
        assoc::get(self.search_data, name.as_str())
    }

    /// The numeral that a numeric key stands for in this lobby.
    fn numeral(&self, key: Key) -> (r: Option<Vec<char>>)
        ensures
            match r {
                Some(t) => self@.numeral(key) == Some(t@),
                None => self@.numeral(key) is None,
            },
    {
        match key {
            Key::NumberKey(n) => match self.property("number_key", n) {
                Some(j) => numeral_text(j),
                None => None,
            },
            Key::MemberCount => Some(integer_chars(self.current_members as i64)),
            Key::MaxMemberCount => Some(integer_chars(self.max_players as i64)),
            Key::MemberCountRemaining => Some(
                integer_chars(self.max_players as i64 - self.current_members as i64),
            ),
            _ => None,
        }
    }

    fn flag(&self, key: Key) -> (r: bool)
        ensures
            r == self@.flag(key),
    {
        match key {
            Key::AmOwner => match self.viewer_id {
                Some(v) => !v.is_empty() && text::eq(v, self.owner_id),
                None => false,
            },
            Key::AmMember => self.viewer_is_member,
            _ => self.has_server,
        }
    }
}

fn holds_of_real(a: Real, b: Real, op: Op) -> (r: bool)
    ensures
        r == compares(a, b, op),
{
    match (a, b) {
        (Real::Rank(x), Real::Rank(y)) => match op {
            Op::Eq => x == y,
            Op::Ne => x != y,
            Op::Le => x <= y,
            Op::Lt => x < y,
            Op::Ge => x >= y,
            Op::Gt => x > y,
        },
        _ => op == Op::Ne,
    }
}

fn check_equality(equal: bool, c: &Clause) -> (r: Result<bool, String>)
    ensures
        match r {
            Ok(b) => equality(equal, c@.op) == Some(b),
            Err(raw) => equality(equal, c@.op) is None && raw@ == c@.raw,
        },
{
    match c.op {
        Op::Eq => Ok(equal),
        Op::Ne => Ok(!equal),
        _ => Err(c.raw.clone()),
    }
}

/// Whether a clause holds of a lobby, or its text where it lies outside the language.
pub fn eval_clause(c: &Clause, l: &LobbyView, n: &Numerals) -> (r: Result<bool, String>)
    ensures
        is_supported(c@) ==> r is Ok,
        match r {
            Ok(b) => holds(c@, l@, n@) == Some(b),
            Err(raw) => holds(c@, l@, n@) is None && raw@ == c@.raw,
        },
{
    let value = text::chars_of(c.value.as_str());
    match c.key {
        Key::StringKey(k) => match l.property("string_key", k) {
            Some(j) => match property_text(j) {
                Some(t) => check_equality(text::same(t.as_slice(), value.as_slice()), c),
                None => Ok(false),
            },
            None => Ok(false),
        },
        Key::AmOwner | Key::AmMember | Key::AmServer => match parse_bool(value.as_slice()) {
            Some(want) => check_equality(l.flag(c.key) == want, c),
            None => Err(c.raw.clone()),
        },
        Key::LobbyId => check_equality(text::is_text(value.as_slice(), l.id), c),
        Key::MembershipLock => {
            let lock = text::to_lowered(text::chars_of(l.membership_lock).as_slice());
            let want = text::to_lowered(value.as_slice());
            check_equality(text::same(lock.as_slice(), want.as_slice()), c)
        },
        _ => {
            let want = text::trim(value.as_slice());
            if !numeral::denotes_number(want) {
                return Err(c.raw.clone());
            }
            match l.numeral(c.key) {
                Some(t) => Ok(holds_of_real(n.value(t.as_slice()), n.value(want), c.op)),
                None => Ok(false),
            }
        },
    }
}

impl Filter {
    /// Whether every clause holds of a lobby. A filter without clauses matches every lobby; one
    /// with anything unsupported matches none.
    pub fn matches(&self, lobby: &LobbyView, numerals: &Numerals) -> (r: bool)
        ensures
            r == self@.accepts(lobby@, numerals@),
    {
        if self.unsupported.len() > 0 {
            return false;
        }
        let mut i: usize = 0;
        while i < self.clauses.len()
            invariant
                i <= self.clauses@.len(),
                self.unsupported@.len() == 0,
                forall|j: int|
                    0 <= j < i ==> holds(#[trigger] self@.clauses[j], lobby@, numerals@) == Some(true),
            decreases self.clauses@.len() - i,
        {
            assert(self@.clauses[i as int] == self.clauses@[i as int]@);
            match eval_clause(&self.clauses[i], lobby, numerals) {
                Ok(true) => {},
                _ => {
                    return false;
                },
            }
            i += 1;
        }
        true
    }

    /// The numerals that the clauses compare with.
    pub fn numerals(&self) -> (r: Vec<String>)
        ensures
            forall|i: int|
                0 <= i < self@.clauses.len() && is_numeric((#[trigger] self@.clauses[i]).key)
                    ==> text::views(r@).contains(text::trimmed(self@.clauses[i].value)),
    {
        let mut r: Vec<String> = Vec::new();
        let mut i: usize = 0;
        while i < self.clauses.len()
            invariant
                i <= self.clauses@.len(),
                forall|j: int|
                    0 <= j < i && is_numeric((#[trigger] self@.clauses[j]).key) ==> text::views(
                        r@,
                    ).contains(text::trimmed(self@.clauses[j].value)),
            decreases self.clauses@.len() - i,
        {
            let c = &self.clauses[i];
            assert(self@.clauses[i as int] == c@);
            let ghost before = r@;
            if numeric(c.key) {
                let all = text::chars_of(c.value.as_str());
                r.push(text::text_of(text::trim(all.as_slice())));
                proof {
                    lemma_views_push(before, r@.last());
                }
            }
            i += 1;
        }
        r
    }
}

/// Another text keeps those that are listed.
pub proof fn lemma_views_push(v: Seq<String>, s: String)
    ensures
        text::views(v.push(s)).contains(s@),
        forall|t: Seq<char>| text::views(v).contains(t) ==> text::views(v.push(s)).contains(t),
{
    assert(text::views(v.push(s))[v.len() as int] == s@);
    assert forall|t: Seq<char>| text::views(v).contains(t) implies text::views(v.push(s)).contains(t) by {
        let i = choose|i: int| 0 <= i < text::views(v).len() && text::views(v)[i] == t;
        assert(text::views(v.push(s))[i] == t);
    }
}

/// The numerals that a lobby's numeric properties and member counts are.
pub fn lobby_numerals(l: &LobbyView) -> (r: Vec<String>)
    ensures
        forall|k: Key|
            (k matches Key::NumberKey(n) ==> 1 <= n <= 30) && #[trigger] l@.numeral(k) is Some
                ==> text::views(r@).contains(l@.numeral(k)->0),
{
    let mut r: Vec<String> = Vec::new();
    let counts: [Key; 3] = [Key::MemberCount, Key::MaxMemberCount, Key::MemberCountRemaining];
    let mut i: usize = 0;
    while i < 3
        invariant
            i <= 3,
            counts@ =~= seq![Key::MemberCount, Key::MaxMemberCount, Key::MemberCountRemaining],
            forall|j: int|
                0 <= j < i && l@.numeral(#[trigger] counts@[j]) is Some ==> text::views(r@).contains(
                    l@.numeral(counts@[j])->0,
                ),
        decreases 3 - i,
    {
        let ghost before = r@;
        if let Some(t) = l.numeral(counts[i]) {
            r.push(text::text_of(t.as_slice()));
            proof {
                lemma_views_push(before, r@.last());
            }
        }
        i += 1;
    }
    assert(counts@[0] == Key::MemberCount && counts@[1] == Key::MaxMemberCount && counts@[2]
        == Key::MemberCountRemaining);
    let mut n: u32 = 1;
    while n <= 30
        invariant
            1 <= n <= 31,
            forall|k: Key|
                !(k is NumberKey) && #[trigger] l@.numeral(k) is Some ==> text::views(r@).contains(
                    l@.numeral(k)->0,
                ),
            forall|m: u32|
                1 <= m < n && #[trigger] l@.number(m) is Some ==> text::views(r@).contains(
                    l@.number(m)->0,
                ),
        decreases 31 - n,
    {
        let ghost before = r@;
        if let Some(t) = l.numeral(Key::NumberKey(n)) {
            r.push(text::text_of(t.as_slice()));
            proof {
                lemma_views_push(before, r@.last());
            }
        }
        n += 1;
    }
    r
}

// Sorting

/// What a sort term compares lobbies by.
pub open spec fn sort_value(l: LobbyModel, spec: SortView, n: NumeralsView) -> Option<Real> {
    match l.numeral(spec.key) {
        Some(t) => match spec.distance {
            Some(target) => Some(n.gap(n.value(t), n.value(target))),
            None => Some(n.value(t)),
        },
        None => None,
    }
}

/// The order of two doubles; what is not a number is level with everything.
pub open spec fn real_order(a: Real, b: Real) -> Ordering {
    match (a, b) {
        (Real::Rank(x), Real::Rank(y)) => if x < y {
            Ordering::Less
        } else if x > y {
            Ordering::Greater
        } else {
            Ordering::Equal
        },
        _ => Ordering::Equal,
    }
}

pub open spec fn opposite(o: Ordering) -> Ordering {
    match o {
        Ordering::Less => Ordering::Greater,
        Ordering::Equal => Ordering::Equal,
        Ordering::Greater => Ordering::Less,
    }
}

/// The order of two lobbies by one sort term. One that lacks the property comes last, whichever
/// way the term goes.
pub open spec fn term_order(
    a: LobbyModel,
    b: LobbyModel,
    spec: SortView,
    n: NumeralsView,
) -> Ordering {
    match (sort_value(a, spec, n), sort_value(b, spec, n)) {
        (None, None) => Ordering::Equal,
        (None, Some(_)) => Ordering::Greater,
        (Some(_), None) => Ordering::Less,
        (Some(x), Some(y)) => if spec.desc {
            opposite(real_order(x, y))
        } else {
            real_order(x, y)
        },
    }
}

/// The order of two lobbies: that of the first term that tells them apart.
pub open spec fn lobby_order(
    a: LobbyModel,
    b: LobbyModel,
    specs: Seq<SortView>,
    n: NumeralsView,
) -> Ordering
    decreases specs.len(),
{
    if specs.len() == 0 {
        Ordering::Equal
    } else if term_order(a, b, specs[0], n) == Ordering::Equal {
        lobby_order(a, b, specs.drop_first(), n)
    } else {
        term_order(a, b, specs[0], n)
    }
}

/// The models of a list of sort terms.
pub open spec fn sort_views(v: Seq<SortSpec>) -> Seq<SortView> {
    v.map_values(|t: SortSpec| t@)
}

/// What a sort term compares a lobby by.
fn sort_number(l: &LobbyView, spec: &SortSpec, n: &Numerals) -> (r: Option<Real>)
    ensures
        r == sort_value(l@, spec@, n@),
{
    match l.numeral(spec.key) {
        Some(t) => {
            let x = n.value(t.as_slice());
            match &spec.distance {
                Some(target) => {
                    let all = text::chars_of(target.as_str());
                    Some(n.gap(x, n.value(all.as_slice())))
                },
                None => Some(x),
            }
        },
        None => None,
    }
}

fn order_reals(a: Real, b: Real, desc: bool) -> (r: Ordering)
    ensures
        r == (if desc { opposite(real_order(a, b)) } else { real_order(a, b) }),
{
    match (a, b) {
        (Real::Rank(x), Real::Rank(y)) => if x < y {
            if desc {
                Ordering::Greater
            } else {
                Ordering::Less
            }
        } else if x > y {
            if desc {
                Ordering::Less
            } else {
                Ordering::Greater
            }
        } else {
            Ordering::Equal
        },
        _ => Ordering::Equal,
    }
}

/// Orders two lobbies by a list of sort terms.
pub fn cmp_lobbies(a: &LobbyView, b: &LobbyView, specs: &[SortSpec], numerals: &Numerals) -> (r:
    Ordering)
    ensures
        r == lobby_order(a@, b@, sort_views(specs@), numerals@),
    decreases specs@.len(),
{
    if specs.len() == 0 {
        return Ordering::Equal;
    }
    assert(sort_views(specs@)[0] == specs@[0]@);
    let first = match (sort_number(a, &specs[0], numerals), sort_number(b, &specs[0], numerals)) {
        (None, None) => Ordering::Equal,
        (None, Some(_)) => Ordering::Greater,
        (Some(_), None) => Ordering::Less,
        (Some(x), Some(y)) => order_reals(x, y, specs[0].desc),
    };
    match first {
        Ordering::Equal => {
            let rest = vstd::slice::slice_subrange(specs, 1, specs.len());
            assert(sort_views(rest@) =~= sort_views(specs@).drop_first());
            cmp_lobbies(a, b, rest, numerals)
        },
        _ => first,
    }
}

// What holds of every filter and every order

/// A filter with anything that was not understood matches no lobby.
pub proof fn unsupported_matches_nothing(f: FilterView, l: LobbyModel, n: NumeralsView)
    requires
        f.unsupported.len() > 0,
    ensures
        !f.accepts(l, n),
{
}

/// A filter of white space matches every lobby.
pub proof fn blank_matches_everything(s: Seq<char>, l: LobbyModel, n: NumeralsView)
    requires
        forall|i: int| 0 <= i < s.len() ==> text::is_ascii_space(#[trigger] s[i]),
    ensures
        filter_of(s).accepts(l, n),
{
    text::lemma_span(s, |c: char| text::is_ascii_space(c), s.len() as int);
    assert(past_space(s) =~= Seq::empty());
}

/// Every clause that a filter is read into can be evaluated: nothing reaches evaluation unchecked.
pub proof fn read_clauses_are_supported(s: Seq<char>)
    ensures
        forall|i: int|
            0 <= i < filter_of(s).clauses.len() ==> is_supported(
                #[trigger] filter_of(s).clauses[i],
            ),
    decreases s.len(),
{
    let t = past_space(s);
    let r2 = token(token(t).1).1;
    if t.len() > 0 && operand(r2) is Some {
        lemma_clause_shrinks(s);
        let r4 = token((operand(r2)->0).1).1;
        read_clauses_are_supported(r4);
        let rest = filter_of(r4).clauses;
        assert forall|i: int| 0 <= i < filter_of(s).clauses.len() implies is_supported(
            #[trigger] filter_of(s).clauses[i],
        ) by {
            let n = filter_of(s).clauses.len() - rest.len();
            if i >= n && n >= 0 {
                assert(is_supported(rest[i - n]));
            }
        }
    }
}

/// A clause that can be evaluated says yes or no of every lobby.
pub proof fn supported_is_decided(c: ClauseView, l: LobbyModel, n: NumeralsView)
    requires
        is_supported(c),
    ensures
        holds(c, l, n) is Some,
{
}

/// A lobby that never published a property meets no constraint on it.
pub proof fn missing_property_never_matches(c: ClauseView, l: LobbyModel, n: NumeralsView)
    requires
        c.key matches Key::StringKey(k) ==> l.string(k) is None,
        c.key matches Key::NumberKey(k) ==> l.number(k) is None,
        c.key is StringKey || c.key is NumberKey,
    ensures
        holds(c, l, n) != Some(true),
{
}

/// Of everything but a property, `ne` is the opposite of `eq`: a clause that can be evaluated holds
/// with the one exactly where it does not hold with the other.
pub proof fn ne_is_the_opposite_of_eq(c: ClauseView, l: LobbyModel, n: NumeralsView)
    requires
        is_supported(c),
        !(c.key is StringKey),
        !(c.key is NumberKey),
    ensures
        holds(ClauseView { op: Op::Eq, ..c }, l, n) is Some,
        holds(ClauseView { op: Op::Ne, ..c }, l, n) is Some,
        holds(ClauseView { op: Op::Eq, ..c }, l, n)->0 == !holds(
            ClauseView { op: Op::Ne, ..c },
            l,
            n,
        )->0,
{
}

/// A text with every quote doubled.
pub open spec fn doubled(v: Seq<char>) -> Seq<char>
    decreases v.len(),
{
    if v.len() == 0 {
        Seq::empty()
    } else if v[0] == '\'' {
        seq!['\'', '\''] + doubled(v.drop_first())
    } else {
        seq![v[0]] + doubled(v.drop_first())
    }
}

proof fn lemma_doubled(v: Seq<char>, rest: Seq<char>)
    requires
        rest.len() > 0 ==> rest[0] != '\'',
    ensures
        quoted(doubled(v) + seq!['\''] + rest) == Some((v, rest)),
        quoted(doubled(v)) is None,
    decreases v.len(),
{
    let s = doubled(v) + seq!['\''] + rest;
    if v.len() == 0 {
        assert(s =~= seq!['\''] + rest);
        assert(s.skip(1) =~= rest);
        assert(v =~= Seq::empty());
    } else {
        let w = v.drop_first();
        lemma_doubled(w, rest);
        assert(v =~= seq![v[0]] + w);
        let d: int = if v[0] == '\'' { 2 } else { 1 };
        assert(s.skip(d) =~= doubled(w) + seq!['\''] + rest);
        assert(doubled(v).skip(d) =~= doubled(w));
    }
}

/// A value that is written between quotes, with its quotes doubled, is read back as itself, up to
/// the closing quote. Without the closing quote it is no value.
pub proof fn quoted_value_reads_back(v: Seq<char>, rest: Seq<char>)
    requires
        rest.len() > 0 ==> rest[0] != '\'',
    ensures
        operand(seq!['\''] + doubled(v) + seq!['\''] + rest) == Some((v, rest)),
        operand(seq!['\''] + doubled(v)) is None,
{
    let p = |c: char| text::is_ascii_space(c);
    let s = seq!['\''] + doubled(v) + seq!['\''] + rest;
    text::lemma_span(s, p, 0);
    assert(past_space(s) =~= s);
    assert(s.skip(1) =~= doubled(v) + seq!['\''] + rest);
    let u = seq!['\''] + doubled(v);
    text::lemma_span(u, p, 0);
    assert(past_space(u) =~= u);
    assert(u.skip(1) =~= doubled(v));
    lemma_doubled(v, rest);
}

/// The text is blank, or its last clause is followed by an `and` that joins nothing.
pub open spec fn dangles(s: Seq<char>) -> bool
    decreases s.len(),
{
    let t = past_space(s);
    let (key, r1) = token(t);
    let (op, r2) = token(r1);
    if t.len() == 0 {
        true
    } else if key == "or"@ || op_of(op) is None || operand(r2) is None {
        false
    } else {
        let r3 = (operand(r2)->0).1;
        let (join, r4) = token(r3);
        if past_space(r3).len() == 0 || join != "and"@ {
            false
        } else {
            proof {
                lemma_clause_shrinks(s);
            }
            dangles(r4)
        }
    }
}

/// White space behind a token does not belong to it.
proof fn lemma_token_before(s: Seq<char>, j: Seq<char>)
    requires
        past_space(s).len() > 0,
        j.len() > 0,
        j[0] == ' ',
    ensures
        past_space(s + j) == past_space(s) + j,
        token(s + j) == (token(s).0, token(s).1 + j),
{
    let p = |c: char| text::is_ascii_space(c);
    let q = |c: char| !text::is_ascii_space(c);
    text::lemma_span_is(s, p);
    let n = text::span(s, p);
    text::lemma_span(s + j, p, n);
    let t = past_space(s);
    assert(past_space(s + j) =~= t + j);
    text::lemma_span_is(t, q);
    let m = text::span(t, q);
    text::lemma_span(t + j, q, m);
    assert((t + j).take(m) =~= t.take(m));
    assert((t + j).skip(m) =~= t.skip(m) + j);
}

proof fn lemma_quoted_before(s: Seq<char>, j: Seq<char>)
    requires
        quoted(s) is Some,
        j.len() > 0,
        j[0] == ' ',
    ensures
        quoted(s + j) == Some(((quoted(s)->0).0, (quoted(s)->0).1 + j)),
    decreases s.len(),
{
    if s[0] != '\'' {
        lemma_quoted_before(s.skip(1), j);
        assert((s + j).skip(1) =~= s.skip(1) + j);
    } else if s.len() > 1 && s[1] == '\'' {
        lemma_quoted_before(s.skip(2), j);
        assert((s + j).skip(2) =~= s.skip(2) + j);
    } else {
        assert((s + j).skip(1) =~= s.skip(1) + j);
    }
}

proof fn lemma_operand_before(s: Seq<char>, j: Seq<char>)
    requires
        operand(s) is Some,
        j.len() > 0,
        j[0] == ' ',
    ensures
        operand(s + j) == Some(((operand(s)->0).0, (operand(s)->0).1 + j)),
{
    lemma_token_before(s, j);
    let t = past_space(s);
    if t[0] == '\'' {
        lemma_quoted_before(t.skip(1), j);
        assert((t + j).skip(1) =~= t.skip(1) + j);
    } else {
        lemma_past_space_twice(s);
        lemma_token_before(t, j);
    }
}

proof fn lemma_past_space_twice(s: Seq<char>)
    ensures
        past_space(past_space(s)) == past_space(s),
{
    let p = |c: char| text::is_ascii_space(c);
    text::lemma_span_is(s, p);
    let t = past_space(s);
    if t.len() > 0 {
        assert(t[0] == s[text::span(s, p)]);
    }
    text::lemma_span(t, p, 0);
    assert(t.skip(0) =~= t);
}

/// White space, then a word, then more.
proof fn lemma_token_behind(s: Seq<char>, b: Seq<char>)
    requires
        past_space(s).len() == 0,
    ensures
        token(s + " and "@ + b) == ("and"@, seq![' '] + b),
        past_space(s + " and "@ + b).len() > 0,
{
    reveal_strlit(" and ");
    reveal_strlit("and");
    let p = |c: char| text::is_ascii_space(c);
    let q = |c: char| !text::is_ascii_space(c);
    let all = s + " and "@ + b;
    text::lemma_span_is(s, p);
    assert forall|i: int| 0 <= i < s.len() + 1 implies p(#[trigger] all[i]) by {
        if i < s.len() {
            assert(all[i] == s[i]);
        }
    }
    assert(all[s.len() + 1int] == 'a');
    text::lemma_span(all, p, s.len() + 1int);
    let t = past_space(all);
    assert(t =~= "and"@ + (seq![' '] + b));
    text::lemma_span(t, q, 3);
    assert(t.take(3) =~= "and"@);
    assert(t.skip(3) =~= seq![' '] + b);
}

/// White space at the start of a filter says nothing.
proof fn lemma_leading_space(b: Seq<char>)
    ensures
        filter_of(seq![' '] + b) == filter_of(b),
{
    let p = |c: char| text::is_ascii_space(c);
    let s = seq![' '] + b;
    text::lemma_span_is(b, p);
    let n = text::span(b, p);
    assert forall|i: int| 0 <= i < n + 1 implies p(#[trigger] s[i]) by {
        if i > 0 {
            assert(s[i] == b[i - 1]);
        }
    }
    if n < b.len() {
        assert(s[n + 1] == b[n]);
    }
    text::lemma_span(s, p, n + 1);
    assert(past_space(s) =~= past_space(b));
}

/// Two filters joined by `and` are read as the one and then the other, so that the joined filter
/// matches exactly where both match. The first is one that can be evaluated and does not end in an
/// `and` of its own.
pub proof fn joined_filters_match_where_both_do(
    a: Seq<char>,
    b: Seq<char>,
    l: LobbyModel,
    n: NumeralsView,
)
    requires
        filter_of(a).unsupported.len() == 0,
        !dangles(a),
    ensures
        filter_of(a + " and "@ + b) == filter_of(a).then_also(filter_of(b)),
        filter_of(a + " and "@ + b).unsupported == filter_of(b).unsupported,
        filter_of(a + " and "@ + b).accepts(l, n) <==> filter_of(a).accepts(l, n) && filter_of(
            b,
        ).accepts(l, n),
{
    lemma_joined(a, b);
    let f = filter_of(a);
    let g = filter_of(b);
    let h = f.then_also(g);
    assert(h.unsupported =~= g.unsupported);
    if h.accepts(l, n) {
        assert forall|i: int| 0 <= i < f.clauses.len() implies holds(
            #[trigger] f.clauses[i],
            l,
            n,
        ) == Some(true) by {
            assert(h.clauses[i] == f.clauses[i]);
        }
        assert forall|i: int| 0 <= i < g.clauses.len() implies holds(
            #[trigger] g.clauses[i],
            l,
            n,
        ) == Some(true) by {
            assert(h.clauses[f.clauses.len() + i] == g.clauses[i]);
        }
    }
}

proof fn lemma_joined(a: Seq<char>, b: Seq<char>)
    requires
        filter_of(a).unsupported.len() == 0,
        !dangles(a),
    ensures
        filter_of(a + " and "@ + b) == filter_of(a).then_also(filter_of(b)),
    decreases a.len(),
{
    reveal_strlit(" and ");
    let j = " and "@ + b;
    let s = a + j;
    assert(a + " and "@ + b =~= s);
    let t = past_space(a);
    let (key, r1) = token(t);
    let (op, r2) = token(r1);
    lemma_past_space_twice(a);
    lemma_token_before(a, j);
    lemma_token_before(t, j);
    lemma_op_token(r1);
    lemma_token_before(r1, j);
    lemma_operand_before(r2, j);
    let (value, r3) = operand(r2)->0;
    lemma_clause_shrinks(a);
    assert((t + j).take(t.len() + j.len() - (r3 + j).len()) =~= t.take(t.len() - r3.len()));
    let raw = text::trimmed(t.take(t.len() - r3.len()));
    let first = FilterView::one(key, op_of(op)->0, value, raw);
    let (join, r4) = token(r3);
    if past_space(r3).len() == 0 {
        assert(r3 + j =~= r3 + " and "@ + b);
        lemma_token_behind(r3, b);
        lemma_leading_space(b);
    } else {
        lemma_token_before(r3, j);
        assert(filter_of(a) == first.then_also(filter_of(r4)));
        lemma_joined(r4, b);
        assert(r4 + " and "@ + b =~= r4 + j);
        assert(first.then_also(filter_of(r4).then_also(filter_of(b))) =~= filter_of(a).then_also(
            filter_of(b),
        ));
    }
}

/// An operator is a token.
proof fn lemma_op_token(s: Seq<char>)
    ensures
        op_of(token(s).0) is Some ==> past_space(s).len() > 0,
{
    lemma_token(s);
    reveal_strlit("eq");
    reveal_strlit("ne");
    reveal_strlit("le");
    reveal_strlit("lt");
    reveal_strlit("ge");
    reveal_strlit("gt");
}

proof fn lemma_end_of_end(s: Seq<char>, x: Seq<char>, y: Seq<char>)
    requires
        text::ends(s, x),
        text::ends(x, y),
    ensures
        text::ends(s, y),
{
    assert(s.skip(s.len() - y.len()) =~= x.skip(x.len() - y.len()));
}

/// What follows a token is the end of the text, and the token stands before it.
proof fn lemma_token_end(s: Seq<char>)
    ensures
        text::ends(s, past_space(s)),
        text::ends(s, token(s).1),
        text::ends(s, token(s).0 + token(s).1),
{
    text::lemma_span_is(s, |c: char| text::is_ascii_space(c));
    let t = past_space(s);
    text::lemma_span_is(t, |c: char| !text::is_ascii_space(c));
    assert(s.skip(s.len() - t.len()) =~= t);
    assert(t.skip(t.len() - token(s).1.len()) =~= token(s).1);
    assert(token(s).0 + token(s).1 =~= t);
    lemma_end_of_end(s, t, token(s).1);
}

proof fn lemma_quoted_end(s: Seq<char>)
    ensures
        quoted(s) is Some ==> text::ends(s, (quoted(s)->0).1),
    decreases s.len(),
{
    if s.len() > 0 {
        let d: int = if s[0] == '\'' && s.len() > 1 && s[1] == '\'' { 2 } else { 1 };
        assert(text::ends(s, s.skip(d)));
        if s[0] != '\'' || d == 2 {
            lemma_quoted_end(s.skip(d));
            if quoted(s) is Some {
                lemma_end_of_end(s, s.skip(d), (quoted(s)->0).1);
            }
        }
    }
}

proof fn lemma_operand_end(s: Seq<char>)
    ensures
        operand(s) is Some ==> text::ends(s, (operand(s)->0).1),
{
    if operand(s) is Some {
        let t = past_space(s);
        lemma_token_end(s);
        lemma_token_end(t);
        if t[0] == '\'' {
            lemma_quoted_end(t.skip(1));
            assert(text::ends(t, t.skip(1)));
            lemma_end_of_end(t, t.skip(1), (operand(s)->0).1);
        }
        lemma_end_of_end(s, t, (operand(s)->0).1);
    }
}

/// A text without the white space at its end.
pub open spec fn trimmed_end(s: Seq<char>) -> Seq<char> {
    s.take(text::span_back(s, |c: char| text::is_space(c)))
}

/// The end of a text that is not blank decides how it ends.
proof fn lemma_trimmed_end(s: Seq<char>, x: Seq<char>)
    requires
        text::ends(s, x),
        text::ends(trimmed_end(x), "and"@),
    ensures
        text::ends(trimmed_end(s), "and"@),
{
    reveal_strlit("and");
    let p = |c: char| text::is_space(c);
    text::lemma_span_back_is(x, p);
    let k = text::span_back(x, p);
    let d = s.len() - x.len();
    assert forall|i: int| d <= i < s.len() implies s[i] == #[trigger] x[i - d] by {
        assert(s.skip(d)[i - d] == s[i]);
    }
    assert forall|i: int| d + k <= i < s.len() implies p(#[trigger] s[i]) by {
        assert(p(x[i - d]));
    }
    assert(s[d + k - 1] == x[k - 1]);
    text::lemma_span_back(s, p, d + k);
    let u = trimmed_end(s);
    let v = trimmed_end(x);
    assert(v.skip(v.len() - 3) =~= "and"@);
    assert(u.skip(u.len() - 3) =~= v.skip(v.len() - 3));
}

/// A filter that is not blank dangles only where it ends in `and`.
pub proof fn dangling_filter_ends_in_and(s: Seq<char>)
    requires
        past_space(s).len() > 0,
        !text::ends(trimmed_end(s), "and"@),
    ensures
        !dangles(s),
    decreases s.len(),
{
    if dangles(s) {
        let t = past_space(s);
        let (key, r1) = token(t);
        let (op, r2) = token(r1);
        let r3 = (operand(r2)->0).1;
        let (join, r4) = token(r3);
        lemma_clause_shrinks(s);
        lemma_token_end(s);
        lemma_token_end(t);
        lemma_token_end(r1);
        lemma_operand_end(r2);
        lemma_token_end(r3);
        lemma_end_of_end(s, t, r1);
        lemma_end_of_end(s, r1, r2);
        lemma_end_of_end(s, r2, r3);
        lemma_end_of_end(s, r3, r4);
        let x = join + r4;
        lemma_end_of_end(s, r3, x);
        if past_space(r4).len() == 0 {
            reveal_strlit("and");
            let p = |c: char| text::is_space(c);
            text::lemma_span_is(r4, |c: char| text::is_ascii_space(c));
            assert forall|i: int| 3 <= i < x.len() implies p(#[trigger] x[i]) by {
                assert(x[i] == r4[i - 3]);
            }
            assert(x[2] == 'd');
            text::lemma_span_back(x, p, 3);
            assert(trimmed_end(x) =~= "and"@);
            assert(trimmed_end(x).skip(0) =~= "and"@);
            lemma_trimmed_end(s, x);
        } else if text::ends(trimmed_end(r4), "and"@) {
            lemma_trimmed_end(s, r4);
        } else {
            dangling_filter_ends_in_and(r4);
        }
    }
}

/// Ordering the other way round gives the opposite order.
pub proof fn order_is_antisymmetric(
    a: LobbyModel,
    b: LobbyModel,
    specs: Seq<SortView>,
    n: NumeralsView,
)
    ensures
        lobby_order(b, a, specs, n) == opposite(lobby_order(a, b, specs, n)),
    decreases specs.len(),
{
    if specs.len() > 0 {
        order_is_antisymmetric(a, b, specs.drop_first(), n);
    }
}

}
