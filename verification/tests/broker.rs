use gbfr_lan::broker::{clamp_max_players, decimal_account_id, make_player, App, Moment, SECOND};
use gbfr_lan::codec::{base64_text, decode_boot_blob, sha1_hex};
use gbfr_lan::json::{string, Json};
use gbfr_lan::lobby_filter::Numerals;
use gbfr_lan::mesh::lobby_lan1_network_id;
use gbfr_lan::numeral::Real;
use gbfr_lan::routes::load_lobby_ini;
use serde_json::Value;


fn from_value(v: &Value) -> Json {
    match v {
        Value::Null => Json::Null,
        Value::Bool(b) => Json::Bool(*b),
        Value::Number(n) => Json::Number(n.to_string()),
        Value::String(s) => Json::Text(s.clone()),
        Value::Array(a) => Json::Array(a.iter().map(from_value).collect()),
        Value::Object(o) => {
            Json::Object(o.iter().map(|(k, v)| (k.clone(), from_value(v))).collect())
        }
    }
}

fn body(s: &str) -> Json {
    from_value(&serde_json::from_str::<Value>(s).unwrap())
}

fn numerals(app: &App, b: &Json) -> Numerals {
    let texts = app.find_numerals(b);
    let mut values = Vec::new();
    let mut gaps = Vec::new();
    for t in &texts {
        if let Ok(x) = t.trim().parse::<f64>() {
            values.push((t.clone(), Real::from_bits(x.to_bits())));
            for u in &texts {
                if let Ok(y) = u.trim().parse::<f64>() {
                    gaps.push((
                        Real::from_bits(x.to_bits()),
                        Real::from_bits(y.to_bits()),
                        Real::from_bits((x - y).abs().to_bits()),
                    ));
                }
            }
        }
    }
    Numerals { values, gaps }
}

struct Broker {
    app: App,
    requests: u64,
    now: u64,
}

impl Broker {
    fn new() -> Broker {
        Broker { app: App::new("TITLE".to_string(), 8080, 8081, 4, false), requests: 0, now: 100_000 * SECOND }
    }

    fn raw(&mut self, method: &str, path: &str, token: &str, b: &str) -> (u16, String, Vec<u8>) {
        let mut headers = vec![("host".to_string(), "10.0.0.1:8080".to_string())];
        if !token.is_empty() {
            headers.push(("x-entitytoken".to_string(), token.to_string()));
        }
        let b = body(b);
        let n = numerals(&self.app, &b);
        self.requests += 1;
        let stamp = format!("stamp-{}", self.requests);
        let now = Moment {
            ticks: self.now,
            text: serde_json::Number::from_f64(self.now as f64 / SECOND as f64).unwrap().to_string(),
        };
        let a = self.app.dispatch(method, path, &headers, &b, &stamp, &now, &n);
        (a.status, a.ctype.to_string(), a.body)
    }

    fn post(&mut self, path: &str, token: &str, b: &str) -> (u16, Value) {
        let (status, _, bytes) = self.raw("POST", path, token, b);
        (status, serde_json::from_slice(&bytes).unwrap())
    }

    fn login(&mut self, ticket: &str) -> (String, String) {
        let b = format!("{{\"SteamTicket\":\"{ticket}\"}}");
        let (status, v) = self.post("/Client/LoginWithSteam", "", &b);
        assert_eq!(status, 200);
        let t = &v["data"]["EntityToken"];
        (
            t["Entity"]["Id"].as_str().unwrap().to_string(),
            t["EntityToken"].as_str().unwrap().to_string(),
        )
    }

    fn create(&mut self, token: &str, more: &str) -> (String, String) {
        let (status, v) = self.post("/Lobby/CreateLobby", token, &format!("{{{more}}}"));
        assert_eq!(status, 200);
        let d = &v["data"];
        (
            d["LobbyId"].as_str().unwrap().to_string(),
            d["ConnectionString"].as_str().unwrap().to_string(),
        )
    }

    fn get(&mut self, id: &str) -> (u16, Value) {
        self.post("/Lobby/GetLobby", "", &format!("{{\"LobbyId\":\"{id}\"}}"))
    }

    fn join(&mut self, token: &str, connection: &str) -> (u16, Value) {
        self.post(
            "/Lobby/JoinLobby",
            token,
            &format!("{{\"ConnectionString\":\"{connection}\"}}"),
        )
    }

    fn find(&mut self, token: &str, filter: &str) -> Vec<Value> {
        let (status, v) =
            self.post("/Lobby/FindLobbies", token, &format!("{{\"Filter\":\"{filter}\"}}"));
        assert_eq!(status, 200);
        v["data"]["Lobbies"].as_array().unwrap().clone()
    }
}

#[test]
fn accounts_are_the_same_for_the_same_ticket() {
    let mut b = Broker::new();
    let a1 = b.login("ticket-a");
    let a2 = b.login("ticket-a");
    let other = b.login("ticket-b");
    assert_eq!(a1, a2);
    assert_ne!(a1.0, other.0);
    let p = make_player("ticket-a");
    assert_eq!(p.entity_id, a1.0);
    let (_, v) = b.post("/Authentication/GetEntityToken", &a1.1, "{}");
    assert_eq!(v["data"]["Entity"]["Id"].as_str(), Some(a1.0.as_str()));
}

#[test]
fn made_lobby_can_be_seen_and_found() {
    let mut b = Broker::new();
    let (me, token) = b.login("ticket-a");
    let (id, connection) = b.create(
        &token,
        "\"MaxPlayers\":4,\"SearchData\":{\"number_key9\":\"1\",\"string_key3\":\"x\"}",
    );
    assert!(id.starts_with("lan-"));
    assert_eq!(id.len(), 16);
    assert_eq!(connection, format!("lan.TITLE.{id}"));
    let (status, v) = b.get(&id);
    assert_eq!(status, 200);
    let l = &v["data"];
    assert_eq!(l["LobbyId"].as_str(), Some(id.as_str()));
    assert_eq!(l["MaxPlayers"].as_i64(), Some(4));
    assert_eq!(l["Owner"]["Id"].as_str(), Some(me.as_str()));
    assert_eq!(l["Members"].as_array().unwrap().len(), 1);
    assert_eq!(b.find(&token, "number_key9 eq 1").len(), 1);
    assert_eq!(b.find(&token, "number_key9 eq 1.0 and string_key3 eq 'x'").len(), 1);
    assert_eq!(b.find(&token, "number_key9 eq 2").len(), 0);
    assert_eq!(b.find(&token, "number_key9 eq 1 or number_key9 eq 2").len(), 0);
    assert_eq!(b.find(&token, "").len(), 1);
}

#[test]
fn new_lobby_of_an_owner_replaces_the_older_one() {
    let mut b = Broker::new();
    let (_, token) = b.login("ticket-a");
    let (first, _) = b.create(&token, "");
    let (second, _) = b.create(&token, "");
    assert_ne!(first, second);
    assert_eq!(b.app.lobbies.len(), 1);
    assert_eq!(b.get(&first).0, 404);
    assert_eq!(b.get(&second).0, 200);
}

#[test]
fn full_lobby_lets_nobody_in() {
    let mut b = Broker::new();
    let (_, token) = b.login("ticket-a");
    let (id, connection) = b.create(&token, "\"MaxPlayers\":2");
    let (guest, t2) = b.login("ticket-b");
    let (_, t3) = b.login("ticket-c");
    let (_, v) = b.join(&t2, &connection);
    assert_eq!(v["code"].as_i64(), Some(200), "{v}");
    let (_, v) = b.get(&id);
    let members = v["data"]["Members"].as_array().unwrap().clone();
    assert_eq!(members.len(), 2);
    assert!(members.iter().any(|m| m["MemberEntity"]["Id"].as_str() == Some(guest.as_str())));
    let (_, v) = b.join(&t3, &connection);
    assert_eq!(v["error"].as_str(), Some("LobbyMemberLimitExceeded"));
    assert_eq!(v["errorMessage"].as_str(), Some("Lobby is full"));
    let (_, v) = b.join(&t2, &connection);
    assert_eq!(v["code"].as_i64(), Some(200), "a member may join again");
    let (_, v) = b.join(&t3, "lan.TITLE.nowhere");
    assert_eq!(v["error"].as_str(), Some("LobbyNotFound"));
    assert_eq!(v["errorMessage"].as_str(), Some("Unknown connection string"));
    let (_, v) = b.join(&t3, "");
    assert_eq!(v["errorMessage"].as_str(), Some("Missing connection string"));
}

#[test]
fn update_changes_and_deletes() {
    let mut b = Broker::new();
    let (_, token) = b.login("ticket-a");
    let (id, _) = b.create(&token, "\"LobbyData\":{\"map\":\"a\",\"mode\":\"x\"}");
    let (_, v) = b.post(
        "/Lobby/UpdateLobby",
        &token,
        &format!(
            "{{\"LobbyId\":\"{id}\",\"LobbyData\":{{\"map\":\"b\"}},\"LobbyDataToDelete\":[\"mode\"],\"MembershipLock\":\"Locked\"}}"
        ),
    );
    assert_eq!(v["code"].as_i64(), Some(200), "{v}");
    let (_, v) = b.get(&id);
    let l = &v["data"];
    assert_eq!(l["LobbyData"]["map"].as_str(), Some("b"));
    assert!(l["LobbyData"]["mode"].is_null());
    assert_eq!(l["MembershipLock"].as_str(), Some("Locked"));
}

#[test]
fn lobby_without_members_is_gone() {
    let mut b = Broker::new();
    let (_, token) = b.login("ticket-a");
    let (id, _) = b.create(&token, "");
    let (status, _) =
        b.post("/Lobby/LeaveLobby", &token, &format!("{{\"LobbyId\":\"{id}\"}}"));
    assert_eq!(status, 200);
    assert!(b.app.lobbies.is_empty());
    assert_eq!(b.get(&id).1["error"].as_str(), Some("LobbyNotFound"));
}

#[test]
fn members_of_a_mesh_find_each_other() {
    let mut b = Broker::new();
    let join = |b: &mut Broker, who: &str, port: u16| {
        b.post(
            "/party/join",
            "",
            &format!("{{\"network_id\":\"net\",\"entity_id\":\"{who}\",\"udp_port\":{port},\"ip\":\"10.0.0.{port}\"}}"),
        )
        .1
    };
    join(&mut b, "host", 1);
    let v = join(&mut b, "guest", 2);
    assert_eq!(v["data"]["network_id"].as_str(), Some("net"), "{v}");
    let (_, v) = b.post("/party/peers?network_id=net", "", "{}");
    let m = v["data"]["members"].as_array().unwrap().clone();
    assert_eq!(m.len(), 2);
    assert!(m.iter().any(|x| x["entity_id"].as_str() == Some("guest")
        && x["ip"].as_str() == Some("10.0.0.2")
        && x["udp_port"].as_i64() == Some(2)));
    b.post("/party/leave", "", "{\"network_id\":\"net\",\"entity_id\":\"host\"}");
    let (_, v) = b.post("/party/peers?network_id=net", "", "{}");
    assert_eq!(v["data"]["members"].as_array().unwrap().len(), 1);
    b.now += 31 * SECOND;
    let (_, v) = b.post("/party/peers?network_id=net", "", "{}");
    assert!(v["data"]["members"].as_array().unwrap().is_empty());
}

#[test]
fn late_leave_does_not_undo_a_newer_registration() {
    let mut b = Broker::new();
    for seq in [5, 7] {
        b.post(
            "/party/join",
            "",
            &format!("{{\"network_id\":\"net\",\"entity_id\":\"host\",\"udp_port\":{seq},\"member_seq\":{seq}}}"),
        );
    }
    let late = "{\"network_id\":\"net\",\"entity_id\":\"host\",\"udp_port\":9,\"member_seq\":6}";
    b.post("/party/leave", "", late);
    b.post("/party/join", "", late);
    let (_, v) = b.post("/party/peers?network_id=net", "", "{}");
    let m = v["data"]["members"].as_array().unwrap().clone();
    assert_eq!(m.len(), 1);
    assert_eq!(m[0]["udp_port"].as_i64(), Some(7));
}

#[test]
fn mesh_has_room_for_so_many() {
    let mut b = Broker::new();
    let mut refused = 0;
    for i in 0..40 {
        let (_, v) = b.post(
            "/party/join",
            "",
            &format!("{{\"network_id\":\"net\",\"entity_id\":\"e{i}\",\"udp_port\":1}}"),
        );
        if v["error"].as_str() == Some("PartyMemberLimitExceeded") {
            refused += 1;
        }
    }
    let (_, v) = b.post("/party/peers?network_id=net", "", "{}");
    assert_eq!(v["data"]["members"].as_array().unwrap().len() + refused, 40);
    assert!(refused > 0);
}

#[test]
fn boot_configuration_names_this_broker() {
    let mut b = Broker::new();
    let (status, _, bytes) = b.raw("GET", "/boot/config.json", "", "{}");
    assert_eq!(status, 200);
    let v: Value = serde_json::from_slice(&bytes).unwrap();
    assert_eq!(v["PlayfabTitleId"].as_str(), Some("TITLE"));
    assert_eq!(v["GameapiUrl"].as_str(), Some("http://10.0.0.1:8080"));
    assert_eq!(v["WebsocketUrl"].as_str(), Some("ws://10.0.0.1:8081/"));
    assert_eq!(v["ActivateDateSec"].as_i64(), Some(100_000 - 86_400));
    let (_, ctype, blob) = b.raw("GET", "/boot/config.blob", "", "{}");
    assert_eq!(ctype, "application/octet-stream");
    assert_ne!(blob, bytes);
    assert_eq!(decode_boot_blob(&blob).unwrap(), bytes);
}

#[test]
fn health_is_answered_at_the_root() {
    let mut b = Broker::new();
    for path in ["/", "/health"] {
        let (status, _, bytes) = b.raw("GET", path, "", "{}");
        assert_eq!(status, 200);
        let v: Value = serde_json::from_slice(&bytes).unwrap();
        assert_eq!(v["ok"].as_bool(), Some(true));
        assert_eq!(v["title"].as_str(), Some("TITLE"));
    }
}

#[test]
fn game_service_is_answered() {
    let mut b = Broker::new();
    let (status, v) = b.post("/sys/user_auth", "", "{}");
    assert_eq!(status, 200);
    let text = v.to_string();
    assert!(text.contains("ws://10.0.0.1:8081/"), "{text}");
    let expected = format!("lan-auth.{}", &sha1_hex("stamp-1")[..16]);
    assert!(text.contains(&expected), "{text}");
}

#[test]
fn accounts_and_limits_are_computed() {
    assert_eq!(clamp_max_players(1), 2);
    assert_eq!(clamp_max_players(8), 8);
    assert_eq!(clamp_max_players(99), 32);
    assert_eq!(decimal_account_id("12345"), "12345");
    assert!(decimal_account_id("abc").chars().all(|c| c.is_ascii_digit()));
    assert_eq!(load_lobby_ini(None), (8, true));
    assert_eq!(
        load_lobby_ini(Some("[Lobby]\nmax_players = 6\noverride_game_max = false\n")),
        (6, false)
    );
}

#[test]
fn values_are_rendered() {
    let j = body("{\"a\":[1,true,null,\"x\\\"y\"]}");
    assert_eq!(j.render(), "{\"a\":[1,true,null,\"x\\\"y\"]}");
    assert_eq!(string("\u{1}\n").render(), "\"\\u0001\\n\"");
    assert_eq!(base64_text("hello"), "aGVsbG8=");
    assert_eq!(sha1_hex("abc"), "a9993e364706816aba3e25717850c26c9cd0d89d");
}

#[test]
fn members_are_rendered_by_name() {
    let j = Json::Object(vec![
        ("b".to_string(), Json::Number("1".to_string())),
        ("a".to_string(), Json::Bool(true)),
        ("ab".to_string(), Json::Null),
    ]);
    assert_eq!(j.render(), "{\"a\":true,\"ab\":null,\"b\":1}");
}

#[test]
fn prefixes_of_a_path_lead_to_the_same_place() {
    let mut b = Broker::new();
    for (i, p) in ["/v1/api/index.php/", "/v1/api/", "/index.php/", "/api/", "/"].iter().enumerate() {
        let (status, v) = b.post(
            &format!("{p}party/join"),
            "",
            &format!("{{\"network_id\":\"net-{i}\",\"entity_id\":\"host\",\"udp_port\":1}}"),
        );
        assert_eq!(status, 200, "{p}");
        assert_eq!(v["data"]["network_id"].as_str(), Some(format!("net-{i}").as_str()));
        let (_, v) = b.post(&format!("/party/peers?network_id=net-{i}"), "", "{}");
        assert_eq!(v["data"]["members"].as_array().unwrap().len(), 1);
    }
}

#[test]
fn asking_for_the_peers_keeps_the_asker_alive() {
    let mut b = Broker::new();
    for who in ["host", "guest"] {
        b.post(
            "/party/join",
            "",
            &format!("{{\"network_id\":\"net\",\"entity_id\":\"{who}\",\"udp_port\":1}}"),
        );
    }
    for _ in 0..4 {
        b.now += 20 * SECOND;
        b.post("/party/peers?network_id=net&entity_id=host", "", "{}");
    }
    let (_, v) = b.post("/party/peers?network_id=net", "", "{}");
    let m = v["data"]["members"].as_array().unwrap().clone();
    assert_eq!(m.len(), 1);
    assert_eq!(m[0]["entity_id"].as_str(), Some("host"));
}

#[test]
fn search_is_sorted_and_cut() {
    let mut b = Broker::new();
    for (who, n) in [("ticket-a", 3), ("ticket-b", 1), ("ticket-c", 2)] {
        let (_, token) = b.login(who);
        b.now += SECOND;
        b.create(&token, &format!("\"SearchData\":{{\"number_key1\":\"{n}\"}}"));
    }
    let (_, token) = b.login("ticket-d");
    let found = |b: &mut Broker, more: &str| -> Vec<String> {
        let (_, v) = b.post("/Lobby/FindLobbies", &token, &format!("{{{more}}}"));
        v["data"]["Lobbies"]
            .as_array()
            .unwrap()
            .iter()
            .map(|l| l["SearchData"]["number_key1"].as_str().unwrap().to_string())
            .collect()
    };
    assert_eq!(found(&mut b, "\"OrderBy\":\"number_key1 asc\""), ["1", "2", "3"]);
    assert_eq!(found(&mut b, "\"Sort\":\"number_key1 desc\""), ["3", "2", "1"]);
    assert_eq!(
        found(&mut b, "\"OrderBy\":\"number_key1 asc\",\"ClientSearchResultCount\":2"),
        ["1", "2"]
    );
    // What was made last comes first where nothing else decides.
    assert_eq!(found(&mut b, ""), ["2", "1", "3"]);
    assert!(found(&mut b, "\"FriendsFilter\":{}").is_empty());
}

#[test]
fn who_leaves_is_no_member_any_more() {
    let mut b = Broker::new();
    let (_, host) = b.login("ticket-a");
    let (guest_id, guest) = b.login("ticket-b");
    let (id, connection) = b.create(&host, "\"MaxPlayers\":4");
    assert_eq!(b.join(&guest, &connection).0, 200);
    let (_, v) = b.get(&id);
    assert_eq!(v["data"]["Members"].as_array().unwrap().len(), 2);
    b.post("/Lobby/LeaveLobby", &guest, &format!("{{\"LobbyId\":\"{id}\"}}"));
    let (_, v) = b.get(&id);
    let m = v["data"]["Members"].as_array().unwrap().clone();
    assert_eq!(m.len(), 1);
    assert!(!v["data"]["Members"].to_string().contains(&guest_id));
}

#[test]
fn lobby_of_a_silent_owner_is_still_found() {
    let mut b = Broker::new();
    let (me, token) = b.login("ticket-a");
    let (id, _) = b.create(
        &token,
        "\"LobbyData\":{\"network_descriptor\":\"LAN1.18d59460-0000-0000-0000-000000000000.c0a86470\"}",
    );
    let net = {
        let l = &b.app.lobbies.iter().find(|l| l.0 == id).unwrap().1;
        assert!(!b.app.lobby_owner_in_party(l, b.now));
        lobby_lan1_network_id(l).unwrap()
    };
    b.post(
        "/party/join",
        "",
        &format!("{{\"network_id\":\"{net}\",\"entity_id\":\"{me}\",\"udp_port\":1}}"),
    );
    let l = &b.app.lobbies.iter().find(|l| l.0 == id).unwrap().1;
    assert!(b.app.lobby_owner_in_party(l, b.now));
    assert!(b.app.lobby_owner_in_party(l, b.now + 30 * SECOND));
    assert!(!b.app.lobby_owner_in_party(l, b.now + 31 * SECOND));
    b.now += 31 * SECOND;
    assert_eq!(b.find(&token, "").len(), 1);
}

#[test]
fn time_is_told_as_the_clock_shows_it() {
    let mut b = Broker::new();
    // A time whose shortest text has a few digits only.
    b.now = 1_700_000_000 * SECOND + SECOND / 4;
    b.post("/party/join", "", "{\"network_id\":\"net\",\"entity_id\":\"host\",\"udp_port\":1}");
    let (_, _, bytes) = b.raw("POST", "/party/peers?network_id=net", "", "{}");
    let text = String::from_utf8(bytes).unwrap();
    assert!(text.contains("\"seen\":1700000000.25,"), "{text}");
    // Thirty seconds are not too long, the least bit more is.
    b.now += 30 * SECOND;
    let (_, v) = b.post("/party/peers?network_id=net", "", "{}");
    assert_eq!(v["data"]["members"].as_array().unwrap().len(), 1);
    b.now += 1;
    let (_, v) = b.post("/party/peers?network_id=net", "", "{}");
    assert!(v["data"]["members"].as_array().unwrap().is_empty());
}

#[test]
fn boot_configuration_takes_any_time() {
    let b = Broker::new();
    let most = i64::MAX as u64 - 315360000;
    let j = b.app.boot_config(&vec![], most);
    assert_eq!(j.integer_field("DeactivateDateSec"), Some(i64::MAX));
    let j = b.app.boot_config(&vec![], 0);
    assert_eq!(j.integer_field("ActivateDateSec"), Some(-86400));
}
