use gbfr_lan::json::Json;
use gbfr_lan::lobby_filter::{clause_supported, cmp_lobbies, eval_clause, lobby_numerals};
use gbfr_lan::lobby_filter::{parse_filter, parse_sort, Clause};
use gbfr_lan::lobby_filter::{Filter, Key, LobbyView, Numerals, Op, SortSpec};
use gbfr_lan::numeral::Real;
use std::cmp::Ordering;

fn double(x: f64) -> Real {
    Real::from_bits(x.to_bits())
}

/// The values of some numerals, and their distances from each target.
fn numerals(texts: Vec<String>, targets: &[String]) -> Numerals {
    let mut values = Vec::new();
    let mut gaps = Vec::new();
    for t in texts.iter().chain(targets.iter()) {
        if let Ok(x) = t.trim().parse::<f64>() {
            values.push((t.clone(), double(x)));
        }
    }
    for t in &texts {
        for u in targets {
            if let (Ok(x), Ok(y)) = (t.trim().parse::<f64>(), u.trim().parse::<f64>()) {
                gaps.push((double(x), double(y), double((x - y).abs())));
            }
        }
    }
    Numerals { values, gaps }
}

fn view<'a>(id: &'a str, sd: &'a Vec<(String, Json)>, lock: &'a str) -> LobbyView<'a> {
    LobbyView {
        id,
        max_players: 8,
        current_members: 2,
        membership_lock: lock,
        search_data: sd,
        owner_id: "owner",
        viewer_id: Some("owner"),
        viewer_is_member: true,
        has_server: false,
    }
}

fn num(t: &str) -> Json {
    Json::Number(t.to_string())
}

fn txt(t: &str) -> Json {
    Json::Text(t.to_string())
}

fn sd(v: Vec<(&str, Json)>) -> Vec<(String, Json)> {
    v.into_iter().map(|(k, j)| (k.to_string(), j)).collect()
}

fn matches(f: &Filter, v: &LobbyView) -> bool {
    let mut texts = f.numerals();
    texts.extend(lobby_numerals(v));
    f.matches(v, &numerals(texts, &[]))
}

fn order(a: &LobbyView, b: &LobbyView, specs: &[SortSpec]) -> Ordering {
    let mut texts = lobby_numerals(a);
    texts.extend(lobby_numerals(b));
    let targets: Vec<String> = specs.iter().filter_map(|s| s.distance.clone()).collect();
    cmp_lobbies(a, b, specs, &numerals(texts, &targets))
}

#[test]
fn empty_filter_matches_all() {
    let f = parse_filter("");
    let data = sd(vec![]);
    assert!(matches(&f, &view("a", &data, "Unlocked")));
    assert!(f.unsupported().is_empty());
}

#[test]
fn exe_number_key9_filter() {
    let f = parse_filter("number_key21 eq 0 and number_key9 eq 1 and number_key10 eq 2");
    assert!(f.unsupported().is_empty(), "{:?}", f.unsupported());
    let hit = sd(vec![("number_key21", num("0")), ("number_key9", txt("1")), ("number_key10", num("2"))]);
    let miss = sd(vec![("number_key21", num("0")), ("number_key9", txt("0")), ("number_key10", num("2"))]);
    assert!(matches(&f, &view("a", &hit, "Unlocked")));
    assert!(!matches(&f, &view("b", &miss, "Unlocked")));
}

#[test]
fn string_ne_and_eq() {
    let f = parse_filter("string_key2 ne 'pw' and string_key3 eq '1'");
    assert!(f.unsupported().is_empty());
    let hit = sd(vec![("string_key2", txt("other")), ("string_key3", txt("1"))]);
    let miss = sd(vec![("string_key2", txt("pw")), ("string_key3", txt("1"))]);
    assert!(matches(&f, &view("a", &hit, "Unlocked")));
    assert!(!matches(&f, &view("b", &miss, "Unlocked")));
}

#[test]
fn float_comparisons_on_number_keys() {
    let f = parse_filter("number_key1 le 2.5");
    let a = sd(vec![("number_key1", num("1.5"))]);
    let b = sd(vec![("number_key1", num("2.5"))]);
    let c = sd(vec![("number_key1", num("100.5"))]);
    assert!(matches(&f, &view("a", &a, "Unlocked")));
    assert!(matches(&f, &view("b", &b, "Unlocked")));
    assert!(!matches(&f, &view("c", &c, "Unlocked")));
    let g = parse_filter("number_key1 gt 2.4 and number_key1 lt 2.6");
    assert!(matches(&g, &view("b", &b, "Unlocked")));
}

#[test]
fn membership_lock_is_operator_aware() {
    let unlocked = parse_filter("lobby/membershipLock eq 'Unlocked'");
    let locked = parse_filter("lobby/membershipLock eq 'Locked'");
    let not_locked = parse_filter("lobby/membershipLock ne 'Locked'");
    let data = sd(vec![]);
    assert!(matches(&unlocked, &view("a", &data, "Unlocked")));
    assert!(!matches(&locked, &view("a", &data, "Unlocked")));
    assert!(matches(&not_locked, &view("a", &data, "Unlocked")));
    assert!(matches(&locked, &view("a", &data, "Locked")));
    assert!(!matches(&not_locked, &view("a", &data, "Locked")));
}

#[test]
fn predefined_counts_and_am_keys() {
    let f = parse_filter(
        "lobby/memberCount eq 2 and lobby/maxMemberCount gt 4 and lobby/memberCountRemaining ge 6 and lobby/amOwner eq 'true' and lobby/amMember eq 'true' and lobby/amServer eq 'false'",
    );
    assert!(f.unsupported().is_empty(), "{:?}", f.unsupported());
    let data = sd(vec![]);
    assert!(matches(&f, &view("a", &data, "Unlocked")));
}

#[test]
fn unsupported_clauses_are_reported_and_fail_closed() {
    for bad in [
        "or",
        "number_key31 eq 1",
        "string_key1 gt 'x'",
        "number_key1 eq abc",
        "lobby/amOwner eq 'maybe'",
        "number_key9 eq 1 or number_key9 eq 0",
    ] {
        let f = parse_filter(bad);
        assert!(!f.unsupported().is_empty(), "not reported: {bad}");
        let data = sd(vec![("number_key9", txt("1"))]);
        assert!(!matches(&f, &view("a", &data, "Unlocked")), "did not fail closed: {bad}");
    }
}

#[test]
fn sort_asc_desc_and_distance() {
    let (specs, bad) = parse_sort("number_key1 desc");
    assert!(bad.is_empty());
    let a = sd(vec![("number_key1", num("1"))]);
    let b = sd(vec![("number_key1", num("2"))]);
    let va = view("a", &a, "Unlocked");
    let vb = view("b", &b, "Unlocked");
    assert_eq!(order(&va, &vb, &specs), Ordering::Greater);

    let (specs, bad) = parse_sort("distance{number_key1 = 3}");
    assert!(bad.is_empty());
    let c = sd(vec![("number_key1", num("4"))]);
    let vc = view("c", &c, "Unlocked");
    let d = sd(vec![("number_key1", num("5"))]);
    let vd = view("d", &d, "Unlocked");
    assert_eq!(order(&vb, &vc, &specs), Ordering::Equal);
    assert_eq!(order(&vb, &vd, &specs), Ordering::Less);
}

#[test]
fn string_sort_is_unsupported() {
    let (specs, bad) = parse_sort("string_key1 asc");
    assert!(specs.is_empty());
    assert_eq!(bad.len(), 1);
}

#[test]
fn clause_is_read_into_its_parts() {
    let f = parse_filter("number_key3 ge 7");
    assert_eq!(f.clauses.len(), 1);
    assert_eq!(f.clauses[0].key, Key::NumberKey(3));
    assert_eq!(f.clauses[0].op, Op::Ge);
    assert_eq!(f.clauses[0].value, "7");
}

#[test]
fn missing_property_matches_neither_way() {
    let data = sd(vec![]);
    for text in ["number_key1 eq 1", "number_key1 ne 1", "string_key1 eq 'x'", "string_key1 ne 'x'"] {
        assert!(!matches(&parse_filter(text), &view("a", &data, "Unlocked")), "{text}");
    }
}

#[test]
fn missing_values_sort_last() {
    let (specs, _) = parse_sort("number_key1 asc");
    let a = sd(vec![("number_key1", num("9"))]);
    let b = sd(vec![]);
    let va = view("a", &a, "Unlocked");
    let vb = view("b", &b, "Unlocked");
    assert_eq!(order(&va, &vb, &specs), Ordering::Less);
    assert_eq!(order(&vb, &va, &specs), Ordering::Greater);
    assert_eq!(order(&vb, &vb, &specs), Ordering::Equal);
}

#[test]
fn ranks_are_ordered_as_numbers() {
    let v = [f64::NEG_INFINITY, -2.5, -1e-300, 0.0, 1e-300, 2.5, 1e300, f64::INFINITY];
    for i in 0..v.len() {
        for j in 0..v.len() {
            let (a, b) = (double(v[i]), double(v[j]));
            if let (Real::Rank(x), Real::Rank(y)) = (a, b) {
                assert_eq!(x < y, v[i] < v[j]);
            } else {
                panic!("no rank");
            }
        }
    }
    assert_eq!(double(0.0), double(-0.0));
    assert_eq!(double(f64::NAN), Real::Nan);
    assert_eq!(f64::from_bits(double(2.5).to_bits()), 2.5);
}

#[test]
fn joined_filters_are_the_one_and_the_other() {
    let data = sd(vec![("string_key1", txt("it's")), ("number_key1", num("3"))]);
    let v = view("lan-1", &data, "Unlocked");
    let yes = ["string_key1 eq 'it''s'", "number_key1 gt 2 and lobby/memberCount eq 2"];
    let no = ["number_key1 lt 2", "lobbyId ne 'lan-1'"];
    for a in yes.iter().chain(no.iter()) {
        for b in yes.iter().chain(no.iter()) {
            let h = parse_filter(&format!("{a} and {b}"));
            assert!(h.unsupported().is_empty());
            let both = matches(&parse_filter(a), &v) && matches(&parse_filter(b), &v);
            assert_eq!(matches(&h, &v), both, "{a} | {b}");
        }
    }
    // A filter that ends in `and` cannot be joined to another.
    assert!(parse_filter("number_key1 gt 2 and ").unsupported().is_empty());
    assert!(!parse_filter("number_key1 gt 2 and and number_key1 gt 1").unsupported().is_empty());
}

#[test]
fn doubled_quotes_stand_for_one() {
    let f = parse_filter("string_key1 eq 'it''s'''");
    assert_eq!(f.clauses[0].value, "it's'");
    assert!(!parse_filter("string_key1 eq 'it''s").unsupported().is_empty());
}

#[test]
fn ne_is_not_eq() {
    let data = sd(vec![]);
    let v = view("lan-1", &data, "Locked");
    for t in [
        "lobbyId OP 'lan-1'",
        "lobbyId OP 'other'",
        "lobby/membershipLock OP 'locked'",
        "lobby/amOwner OP true",
        "lobby/amServer OP true",
        "lobby/memberCount OP 2",
        "lobby/memberCountRemaining OP 2",
        "lobby/maxMemberCount OP nan",
    ] {
        let eq = matches(&parse_filter(&t.replace("OP", "eq")), &v);
        let ne = matches(&parse_filter(&t.replace("OP", "ne")), &v);
        assert_eq!(eq, !ne, "{t}");
    }
    assert!(!matches(&parse_filter("string_key1 eq 'x'"), &v));
    assert!(!matches(&parse_filter("string_key1 ne 'x'"), &v));
}

#[test]
fn clauses_are_decided_where_they_are_supported() {
    let data = sd(vec![("string_key1", txt("x"))]);
    let v = view("lan-1", &data, "Unlocked");
    let clause = |key: Key, op: Op, value: &str| Clause {
        key,
        op,
        value: value.to_string(),
        raw: "as it was written".to_string(),
    };
    let n = Numerals { values: vec![("2".to_string(), double(2.0))], gaps: vec![] };
    let good = clause(Key::MemberCount, Op::Ge, "2");
    assert!(clause_supported(&good));
    assert_eq!(eval_clause(&good, &v, &n), Ok(true));
    let bad = clause(Key::StringKey(1), Op::Lt, "x");
    assert!(!clause_supported(&bad));
    assert_eq!(eval_clause(&bad, &v, &n), Err("as it was written".to_string()));
    let flag = clause(Key::AmMember, Op::Eq, "maybe");
    assert!(!clause_supported(&flag));
    assert!(eval_clause(&flag, &v, &n).is_err());
}
