use gbfr_lan::assoc::{get, put, take};
use gbfr_lan::lobby_client::{Client, CreateConfig, Job, Reclaim};
use gbfr_lan::lobby_delta::{changed_keys, diff_lobby};
use gbfr_lan::lobby_json::{json_escape, parse_json_string};
use gbfr_lan::lobby_model::{Bag, Entity, Lobby};
use gbfr_lan::lobby_requests::Search;
use gbfr_lan::lobby_requests::{E_PF_ENTITY_KEY_MALFORMED, E_PF_ENTITY_TOKEN_MALFORMED};
use gbfr_lan::lobby_requests::{E_PF_INSTANCE_ALREADY_EXISTS, E_PF_LOBBY_EMPTY_UPDATE};
use gbfr_lan::lobby_requests::E_PF_LOBBY_UPDATE_AFTER_DISCONNECT;
use gbfr_lan::lobby_requests::{E_PF_NOT_INITIALIZED, E_PF_OBJECT_STILL_PENDING};
use gbfr_lan::lobby_stage::LobbyChange;
use gbfr_lan::lobby_update::{DataUpdate, MemberData};
use std::collections::BTreeMap;

/// A broker that knows one lobby.
struct Mock {
    descriptor_ready: bool,
    fail_path: Option<&'static str>,
    lobby_data: BTreeMap<String, String>,
    search_data: BTreeMap<String, String>,
    lock: String,
}

fn pairs(v: &BTreeMap<String, String>) -> String {
    let p: Vec<String> = v.iter().map(|(k, v)| format!("\"{k}\":\"{v}\"")).collect();
    p.join(",")
}

fn texts(v: &serde_json::Value, key: &str) -> Vec<(String, String)> {
    match v[key].as_object() {
        Some(o) => o
            .iter()
            .map(|(k, x)| (k.clone(), x.as_str().unwrap_or("").to_string()))
            .collect(),
        None => Vec::new(),
    }
}

impl Mock {
    fn new() -> Mock {
        Mock {
            descriptor_ready: true,
            fail_path: None,
            lobby_data: BTreeMap::new(),
            search_data: BTreeMap::new(),
            lock: "Unlocked".to_string(),
        }
    }

    fn lobby(&self) -> String {
        let mut data = self.lobby_data.clone();
        let d = if self.descriptor_ready {
            "LAN1.18d59460-0000-0000-0000-000000000000.c0a86470"
        } else {
            "dummy"
        };
        data.insert("network_descriptor".to_string(), d.to_string());
        data.insert("invitation_identifier".to_string(), "lan-invite".to_string());
        format!(
            "{{\"LobbyId\":\"lan-test\",\"ConnectionString\":\"lan.1AC1AD.lan-test\",\"MaxPlayers\":4,\
             \"MembershipLock\":\"{}\",\"AccessPolicy\":\"Public\",\
             \"Owner\":{{\"Id\":\"owner-1\",\"Type\":\"title_player_account\"}},\
             \"Members\":[{{\"Id\":\"owner-1\",\"MemberEntity\":{{\"Id\":\"owner-1\",\"Type\":\"title_player_account\"}},\
             \"MemberData\":{{\"member_platform\":\"Steam\",\"member_platform_user_name\":\"Host\"}}}}],\
             \"LobbyData\":{{{}}},\"SearchData\":{{{}}}}}",
            self.lock,
            pairs(&data),
            pairs(&self.search_data)
        )
    }

    fn reply(&mut self, job: &Job) -> (u16, String) {
        if let Some(p) = self.fail_path {
            if job.path.contains(p) {
                return (500, "{\"code\":500,\"error\":\"MockFailure\"}".to_string());
            }
        }
        let body = String::from_utf8(job.body.clone()).unwrap();
        let v: serde_json::Value =
            serde_json::from_str(&body).unwrap_or(serde_json::Value::Null);
        if job.path.contains("CreateAndJoinLobby") || job.path.contains("UpdateLobby") {
            if job.path.contains("CreateAndJoinLobby") {
                self.lobby_data.clear();
                self.search_data.clear();
            }
            for (k, x) in texts(&v, "LobbyData") {
                self.lobby_data.insert(k, x);
            }
            for (k, x) in texts(&v, "SearchData") {
                self.search_data.insert(k, x);
            }
            if let Some(gone) = v["LobbyDataToDelete"].as_array() {
                for k in gone {
                    self.lobby_data.remove(k.as_str().unwrap());
                }
            }
            if let Some(l) = v["MembershipLock"].as_str() {
                self.lock = l.to_string();
            }
        }
        let data = if job.path.contains("CreateAndJoinLobby") {
            "{\"LobbyId\":\"lan-test\",\"ConnectionString\":\"lan.1AC1AD.lan-test\",\"MaxPlayers\":4}"
                .to_string()
        } else if job.path.contains("JoinLobby") {
            "{\"LobbyId\":\"lan-test\",\"MaxPlayers\":4}".to_string()
        } else if job.path.contains("GetLobby") {
            self.lobby()
        } else if job.path.contains("FindLobbies") {
            format!("{{\"Lobbies\":[{}],\"Pagination\":{{}}}}", self.lobby())
        } else if job.path.contains("party/peers") {
            return (200, "{\"peers\":[{\"entity_id\":\"owner-1\"}]}".to_string());
        } else {
            "{}".to_string()
        };
        (200, format!("{{\"code\":200,\"data\":{data},\"status\":\"OK\"}}"))
    }
}

fn entity(id: &str) -> Option<Entity> {
    Some(Entity { id: id.to_string(), kind: "title_player_account".to_string() })
}

fn client() -> Client {
    let mut c = Client::new();
    assert_eq!(c.initialize(), 0);
    assert_eq!(c.set_entity_token(&entity("player-1"), &Some("token".to_string())), 0);
    c
}

fn texts_of(v: &[(&str, &str)]) -> Vec<(String, String)> {
    v.iter().map(|(k, x)| (k.to_string(), x.to_string())).collect()
}

fn config(search: &[(&str, &str)], props: &[(&str, &str)]) -> Option<CreateConfig> {
    Some(CreateConfig {
        max: 4,
        owner_migration_policy: 0,
        access_policy: 0,
        search: texts_of(search),
        props: texts_of(props),
    })
}

/// The worker answers everything that is asked.
fn serve(c: &mut Client, m: &mut Mock) {
    while let Some(job) = c.take_job() {
        let r = m.reply(&job);
        c.answer(job, &Some(r));
    }
}

/// One round of the title.
fn pump(c: &mut Client, now: u64) -> Vec<(u32, i32, usize)> {
    assert_eq!(c.start_processing(now), 0);
    let log = c
        .in_flight
        .iter()
        .map(|x| match x {
            LobbyChange::CreateCompleted { result, .. } => (x.kind(), *result, 0),
            LobbyChange::JoinCompleted { result, .. } => (x.kind(), *result, 0),
            LobbyChange::FindCompleted { result, rows, .. } => (x.kind(), *result, rows.len()),
            _ => (x.kind(), 0, 0),
        })
        .collect();
    let n = c.in_flight.len() as u32;
    let (rc, _) = c.finish_processing(n, true);
    assert_eq!(rc, 0);
    assert!(c.in_flight.is_empty());
    log
}

fn kinds(log: &[(u32, i32, usize)]) -> Vec<u32> {
    log.iter().map(|x| x.0).collect()
}

fn created(c: &mut Client, m: &mut Mock) -> u64 {
    let l = c
        .create_and_join_lobby(&entity("player-1"), &config(&[], &[("a", "1"), ("b", "2")]), &vec![], 0)
        .unwrap();
    serve(c, m);
    assert!(kinds(&pump(c, 0)).contains(&0));
    l
}

#[test]
fn creation_is_answered_later() {
    let (mut c, mut m) = (client(), Mock::new());
    let l = c
        .create_and_join_lobby(
            &entity("player-1"),
            &config(&[("string_key1", "lan-test")], &[("comment1", "hello")]),
            &vec![],
            77,
        )
        .unwrap() as usize;
    assert_eq!(c.lobbies[l].get_lobby_id().unwrap_err(), E_PF_OBJECT_STILL_PENDING);
    assert_eq!(E_PF_OBJECT_STILL_PENDING, 0x8923_6205u32 as i32);
    assert!(!kinds(&pump(&mut c, 0)).contains(&0));
    serve(&mut c, &mut m);
    let log = pump(&mut c, 10);
    let at = |k: u32| log.iter().position(|x| x.0 == k);
    assert!(at(2).is_some() && at(0).is_some() && at(2) < at(0), "{log:?}");
    assert_eq!(log[at(0).unwrap()].1, 0);
    assert_eq!(c.lobbies[l].get_lobby_id().unwrap(), "lan-test");
    assert_eq!(c.lobbies[l].get_connection_string().unwrap(), "lan.1AC1AD.lan-test");
    assert!(c.lobbies[l].get_membership_lock().is_ok());
    assert!(c.lobbies[l].get_owner().unwrap().is_some());
    assert_eq!(c.lobbies[l].get_lobby_property("comment1").as_deref(), Some("hello"));
    assert_eq!(c.lobbies[l].get_search_property("string_key1").as_deref(), Some("lan-test"));
}

#[test]
fn joining_waits_for_the_host() {
    let (mut c, mut m) = (client(), Mock::new());
    m.descriptor_ready = false;
    c.join_lobby(&entity("player-2"), "lan.1AC1AD.lan-test", &vec![]).unwrap();
    let mut log = Vec::new();
    for i in 0..4 {
        serve(&mut c, &mut m);
        log.extend(pump(&mut c, i * 1_000));
    }
    assert!(!kinds(&log).contains(&1), "{log:?}");
    m.descriptor_ready = true;
    for i in 4..8 {
        serve(&mut c, &mut m);
        log.extend(pump(&mut c, i * 1_000));
    }
    let at = |k: u32| log.iter().position(|x| x.0 == k);
    assert!(at(1).is_some(), "{log:?}");
    assert!(at(2) < at(7) && at(7) < at(1), "{log:?}");
    assert_eq!(log[at(1).unwrap()].1, 0);
}

#[test]
fn search_gives_rows_or_an_error() {
    let (mut c, mut m) = (client(), Mock::new());
    let s = Search {
        filter: "number_key1 eq 1".to_string(),
        sort: String::new(),
        count: Some(30),
        friends: None,
    };
    assert_eq!(c.find_lobbies(&entity("player-1"), &s, 5), 0);
    serve(&mut c, &mut m);
    let log = pump(&mut c, 0);
    let f = log.iter().find(|x| x.0 == 12).unwrap();
    assert_eq!((f.1, f.2), (0, 1));
    m.fail_path = Some("FindLobbies");
    assert_eq!(c.find_lobbies(&entity("player-1"), &s, 5), 0);
    serve(&mut c, &mut m);
    let log = pump(&mut c, 10);
    let f = log.iter().find(|x| x.0 == 12).unwrap();
    assert_ne!(f.1, 0);
    assert_eq!(f.2, 0);
}

fn change(props: Vec<(String, Option<String>)>, lock: Option<i32>) -> Option<DataUpdate> {
    Some(DataUpdate {
        owner: None,
        max_players: None,
        access_policy: None,
        membership_lock: lock,
        search: vec![],
        props,
    })
}

#[test]
fn update_is_seen_at_once_and_told_later() {
    let (mut c, mut m) = (client(), Mock::new());
    let l = created(&mut c, &mut m);
    let d = change(vec![("post1".to_string(), Some("v1".to_string()))], None);
    assert_eq!(c.post_update(l, entity("player-1"), &d, &None, 9), 0);
    assert_eq!(c.lobbies[l as usize].get_lobby_property("post1").as_deref(), Some("v1"));
    serve(&mut c, &mut m);
    let log = kinds(&pump(&mut c, 10));
    assert!(log.contains(&8) && log.contains(&7), "{log:?}");
    assert_eq!(m.lobby_data.get("post1").map(|s| s.as_str()), Some("v1"));
    c.leave_lobby(l);
    serve(&mut c, &mut m);
    assert!(kinds(&pump(&mut c, 20)).contains(&6));
}

#[test]
fn value_without_text_is_deleted() {
    let (mut c, mut m) = (client(), Mock::new());
    let l = created(&mut c, &mut m);
    assert_eq!(c.lobbies[l as usize].get_lobby_property("a").as_deref(), Some("1"));
    let d = change(vec![("a".to_string(), None)], Some(1));
    assert_eq!(c.post_update(l, entity("player-1"), &d, &None, 0), 0);
    assert_eq!(c.lobbies[l as usize].get_lobby_property("a"), None);
    assert_eq!(c.lobbies[l as usize].get_lobby_property("b").as_deref(), Some("2"));
    assert_eq!(c.lobbies[l as usize].get_membership_lock().unwrap(), 1);
    assert_eq!(
        c.post_update(l, entity("player-1"), &None, &None, 0),
        E_PF_LOBBY_EMPTY_UPDATE
    );
}

#[test]
fn data_of_a_member_is_read_back() {
    let (mut c, mut m) = (client(), Mock::new());
    let l = created(&mut c, &mut m);
    let v = Some(MemberData {
        member: entity("player-1"),
        values: vec![("ready".to_string(), Some("1".to_string()))],
    });
    assert_eq!(c.post_update(l, entity("player-1"), &None, &v, 0), 0);
    let me = entity("player-1");
    assert_eq!(
        c.lobbies[l as usize].get_member_property(&me, "ready").unwrap().as_deref(),
        Some("1")
    );
}

#[test]
fn refused_creation_adds_nobody() {
    let (mut c, mut m) = (client(), Mock::new());
    m.fail_path = Some("CreateAndJoinLobby");
    c.create_and_join_lobby(&entity("player-1"), &config(&[], &[]), &vec![], 0).unwrap();
    serve(&mut c, &mut m);
    let log = pump(&mut c, 0);
    let done = log.iter().find(|x| x.0 == 0).unwrap();
    assert_ne!(done.1, 0);
    assert!(!kinds(&log).contains(&2));
}

#[test]
fn answer_for_an_earlier_life_is_dropped() {
    let (mut c, mut m) = (client(), Mock::new());
    c.create_and_join_lobby(&entity("player-1"), &config(&[], &[]), &vec![], 0).unwrap();
    let job = c.take_job().unwrap();
    assert_eq!(c.uninitialize(), 0);
    assert_eq!(c.initialize(), 0);
    assert_eq!(c.set_entity_token(&entity("player-3"), &Some("t".to_string())), 0);
    let r = m.reply(&job);
    c.answer(job, &Some(r));
    let log = kinds(&pump(&mut c, 0));
    assert!(!log.contains(&0) && !log.contains(&2), "{log:?}");
    c.create_and_join_lobby(&entity("player-3"), &config(&[], &[]), &vec![], 0).unwrap();
    serve(&mut c, &mut m);
    assert!(kinds(&pump(&mut c, 10)).contains(&0));
}

#[test]
fn empty_rounds_are_harmless() {
    let mut c = client();
    assert!(pump(&mut c, 0).is_empty());
    let (rc, what) = c.finish_processing(3, true);
    assert_eq!(rc, 0);
    assert!(matches!(what, Reclaim::Stray));
    let (rc, what) = c.finish_processing(0, true);
    assert_eq!(rc, 0);
    assert!(matches!(what, Reclaim::Idle));
}

#[test]
fn batch_stays_until_it_is_given_back() {
    let (mut c, mut m) = (client(), Mock::new());
    c.create_and_join_lobby(&entity("player-1"), &config(&[], &[]), &vec![], 0).unwrap();
    serve(&mut c, &mut m);
    c.start_processing(0);
    let n = c.in_flight.len();
    assert!(n > 0);
    let (_, what) = c.finish_processing(n as u32, false);
    assert!(matches!(what, Reclaim::Refused));
    assert_eq!(c.in_flight.len(), n);
    let (_, what) = c.finish_processing(n as u32, true);
    assert!(matches!(what, Reclaim::Done));
    assert!(c.in_flight.is_empty());
}

#[test]
fn client_has_to_be_started() {
    let mut c = Client::new();
    assert_eq!(c.uninitialize(), E_PF_NOT_INITIALIZED);
    assert_eq!(c.start_processing(0), E_PF_NOT_INITIALIZED);
    assert_eq!(
        c.create_and_join_lobby(&entity("a"), &None, &vec![], 0).unwrap_err(),
        E_PF_NOT_INITIALIZED
    );
    assert_eq!(c.initialize(), 0);
    assert_eq!(c.initialize(), E_PF_INSTANCE_ALREADY_EXISTS);
    let token = Some("t".to_string());
    assert_eq!(c.set_entity_token(&None, &token), E_PF_ENTITY_KEY_MALFORMED);
    assert_eq!(c.set_entity_token(&entity(""), &token), E_PF_ENTITY_KEY_MALFORMED);
    assert_eq!(c.set_entity_token(&entity("a"), &None), E_PF_ENTITY_TOKEN_MALFORMED);
    assert_eq!(c.force_remove_member(&None), E_PF_ENTITY_KEY_MALFORMED);
    assert_eq!(c.force_remove_member(&entity("a")), 0);
}

#[test]
fn lobby_that_is_gone_is_told_of() {
    let (mut c, mut m) = (client(), Mock::new());
    let l = created(&mut c, &mut m) as usize;
    let mut log = Vec::new();
    for i in 1..4 {
        while let Some(job) = c.take_job() {
            c.answer(job, &None);
        }
        log.extend(pump(&mut c, i * 1_000));
    }
    assert!(!kinds(&log).contains(&10), "{log:?}");
    assert!(!c.lobbies[l].left);
    for i in 4..7 {
        while let Some(job) = c.take_job() {
            c.answer(job, &Some((404, "{\"code\":404,\"error\":\"LobbyDoesNotExist\"}".to_string())));
        }
        log.extend(pump(&mut c, i * 1_000));
    }
    assert_eq!(kinds(&log).iter().filter(|k| **k == 10).count(), 1, "{log:?}");
    assert!(c.lobbies[l].left);
}

#[test]
fn lobby_that_was_left_is_quiet() {
    let (mut c, mut m) = (client(), Mock::new());
    let l = created(&mut c, &mut m);
    c.leave_lobby(l);
    serve(&mut c, &mut m);
    let log = pump(&mut c, 5_000);
    assert!(!kinds(&log).contains(&7) && !kinds(&log).contains(&10), "{log:?}");
    let d = change(vec![("a".to_string(), Some("9".to_string()))], None);
    let rc = c.post_update(l, entity("player-1"), &d, &None, 0);
    assert_eq!(rc, E_PF_LOBBY_UPDATE_AFTER_DISCONNECT);
    assert_eq!(created(&mut c, &mut m), l + 1);
    assert_eq!(c.lobbies[l as usize].number, l);
}

#[test]
fn escaped_text_is_read_back() {
    let t = "a\"b\\c\n\u{1}\u{e9}\u{1f600}";
    let mut out = vec![b'"'];
    json_escape(&mut out, t.as_bytes());
    out.push(b'"');
    assert_eq!(parse_json_string(&out, 0), (Some(t.to_string()), out.len()));
}

#[test]
fn changes_of_a_lobby_are_found_in_order() {
    let before = Bag { entries: texts_of(&[("c", "1"), ("a", "1"), ("b", "1")]) };
    let after = Bag { entries: texts_of(&[("d", "1"), ("b", "1"), ("c", "2")]) };
    assert_eq!(changed_keys(&before, &after), ["a", "c", "d"]);
    assert!(changed_keys(&before, &before.copy()).is_empty());
    let l = Lobby::blank(0);
    assert!(diff_lobby(&l, &l.copy()).is_empty());
    let mut k = l.copy();
    k.max_players = l.max_players + 1;
    k.props = after;
    let d = diff_lobby(&l, &k);
    assert!(d.max_players && !d.owner && !d.membership_lock);
    assert_eq!(d.lobby_keys, ["b", "c", "d"]);
}

#[test]
fn values_are_found_until_they_are_taken() {
    let mut v: Vec<(String, String)> = Vec::new();
    put(&mut v, "a", "1".to_string());
    put(&mut v, "b", "2".to_string());
    put(&mut v, "a", "3".to_string());
    assert_eq!(v.len(), 2);
    assert_eq!(get(&v, "a").map(|x| x.as_str()), Some("3"));
    assert_eq!(take(&mut v, "a"), Some("3".to_string()));
    assert!(get(&v, "a").is_none());
    assert_eq!(get(&v, "b").map(|x| x.as_str()), Some("2"));
}
