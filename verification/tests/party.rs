use gbfr_lan::broker_queue::{dispatch_broker, stash_peer_result, take_peer_result};
use gbfr_lan::broker_queue::{BrokerTask, PollResult, QUEUE_CAP};
use gbfr_lan::delivery::{Change, Delivery, Returned, BATCH_CAP, PENDING_CAP};
use gbfr_lan::descriptor::{deserialize_desc, ip_string, lan_ip, parse_lan1, rewrite_peer_ip};
use gbfr_lan::descriptor::{serialize_desc, uuid_ident, Descriptor, Ip4};
use gbfr_lan::handle::{accepts_message, Counters, Handle, OutJob};
use gbfr_lan::outbound::{next_transport_wait_ms, Parcel};
use gbfr_lan::party::{recv_opts_for, tell_entity, Peer};
use gbfr_lan::scan::{http_request, json_arr_objects, leave_body, peers_path, read_peers, read_reply, register_body};
use gbfr_lan::wire::{parse_packet, wire_packet, HDR_LEN, KIND_ACK, KIND_HELLO, KIND_MSG};

const GUAR_SEQ: u32 = 3;

fn ip(a: u8, b: u8, c: u8, d: u8) -> Ip4 {
    Ip4 { a, b, c, d }
}

fn counters() -> Counters {
    Counters { user: 1, uid: 1, network: 1, poll: 1 }
}

/// A host that has made a network, joined it and created its endpoint, with everything delivered.
fn host(now: u64) -> (Handle, u64) {
    let mut h = Handle::new(now, counters());
    h.create_local_user("host");
    let id = h.create_new_network("net-0001", Some("host".to_string()), 4000, ip(10, 0, 0, 1), now);
    let d = h.networks[0].descriptor.copy();
    assert_eq!(h.connect_network(d, None, now), Some(id));
    h.authenticate_local_user(id);
    h.create_endpoint(id, Some("host".to_string()), now);
    pump(&mut h, &[], now);
    pump(&mut h, &[], now);
    (h, id)
}

/// One round of the title: it takes what it is given and gives it back.
fn pump(h: &mut Handle, listed: &[&str], now: u64) -> Vec<u32> {
    let listed: Vec<String> = listed.iter().map(|s| s.to_string()).collect();
    h.start_processing(&listed, now);
    let kinds: Vec<u32> = h.delivery.in_flight.iter().map(|c| c.kind()).collect();
    let back: Vec<Option<Returned>> = h
        .delivery
        .in_flight
        .iter()
        .map(|c| {
            let network = match c {
                Change::NetworkCreated { network }
                | Change::Connected { network }
                | Change::Authenticated { network }
                | Change::EndpointCreated { network, .. }
                | Change::RemoteJoined { network, .. }
                | Change::NetworkLeft { network }
                | Change::Message { network, .. } => *network,
            };
            Some(Returned { kind: c.kind(), network: Some(network) })
        })
        .collect();
    h.finish_processing(&back);
    kinds
}

fn guest() -> Peer {
    Peer { entity: "guest".to_string(), ip: "10.0.0.2".to_string(), udp_port: 5000 }
}

/// The broker's reply for a network that asked, under the newest request.
fn reply(h: &mut Handle, id: u64, members: Vec<Peer>) {
    let mut seq = 0;
    for t in &h.requests {
        if let BrokerTask::PollPeers { epoch, seq: s, .. } = t {
            if *epoch == id {
                seq = *s;
            }
        }
    }
    h.requests.clear();
    stash_peer_result(&mut h.results, id, PollResult { seq, members });
}

fn with_guest(now: u64) -> (Handle, u64) {
    let (mut h, id) = host(now);
    pump(&mut h, &["guest"], now + 300);
    reply(&mut h, id, vec![guest()]);
    let kinds = pump(&mut h, &["guest"], now + 310);
    assert!(kinds.contains(&12), "{kinds:?}");
    (h, id)
}

#[test]
fn creating_and_joining_is_told_in_order() {
    let mut h = Handle::new(0, counters());
    let user = h.create_local_user("host");
    assert_eq!(user, 1);
    let id = h.create_new_network("net-0001", Some("host".to_string()), 4000, ip(10, 0, 0, 1), 0);
    assert_eq!(id, 1);
    assert_eq!(h.network_count(), 1);
    h.authenticate_local_user(id);
    let uid = h.create_endpoint(id, Some("host".to_string()), 0);
    assert_eq!(uid, 1);
    let mut kinds = pump(&mut h, &[], 0);
    kinds.extend(pump(&mut h, &[], 0));
    let at = |k: u32| kinds.iter().position(|x| *x == k);
    assert!(at(2).is_some(), "{kinds:?}");
    assert!(at(4).is_some());
    assert!(at(10).is_some());
    assert!(at(2) < at(4) && at(4) < at(10));
    h.destroy_local_user(user);
    assert!(h.users.is_empty());
}

#[test]
fn reply_of_the_broker_becomes_a_peer() {
    let (h, _) = with_guest(1_000);
    assert_eq!(h.networks[0].remotes.len(), 1);
    assert_eq!(h.networks[0].remotes[0].1.entity, "guest");
}

#[test]
fn reply_for_a_network_that_was_left_is_dropped() {
    let (mut h, id) = host(1_000);
    pump(&mut h, &["guest"], 1_300);
    let d = h.networks[0].descriptor.copy();
    let mut seq = 0;
    for t in &h.requests {
        if let BrokerTask::PollPeers { seq: s, .. } = t {
            seq = *s;
        }
    }
    h.leave_network(id);
    assert_eq!(h.network_count(), 0);
    let again = h.connect_network(d, Some(4001), 1_310).unwrap();
    assert_ne!(again, id);
    stash_peer_result(&mut h.results, id, PollResult { seq, members: vec![guest()] });
    pump(&mut h, &["guest"], 1_320);
    assert!(h.networks[0].remotes.is_empty());
    assert!(take_peer_result(&mut h.results, id).is_none());
}

#[test]
fn known_peer_is_followed_to_its_new_address() {
    let (mut h, _) = with_guest(1_000);
    let net = &mut h.networks[0];
    let pkt = wire_packet("net-0001", b"guest", KIND_MSG, GUAR_SEQ, 1, 0, b"op5 sub3");
    assert!(net.on_datagram(&mut h.delivery, &pkt, "10.0.0.9", 6000, 2_000));
    assert_eq!(net.remotes[0].1.ip, "10.0.0.9");
    assert_eq!(net.remotes[0].1.udp_port, 6000);
    let out = net.reliable_service(&[true], 2_100);
    assert_eq!(out.len(), 1);
    assert_eq!(out[0].ip, "10.0.0.9");
    let ack = parse_packet(&out[0].data).unwrap();
    assert_eq!(ack.kind, KIND_ACK);
    assert_eq!(ack.ack, 1);
    let kinds = pump(&mut h, &[], 2_200);
    assert!(kinds.contains(&21));
}

#[test]
fn unacknowledged_message_is_sent_again_until_it_is_acknowledged() {
    let (mut h, id) = with_guest(1_000);
    h.enqueue_out(OutJob {
        network: id,
        parcel: Parcel { kind: KIND_MSG, options: GUAR_SEQ, payload: b"hello".to_vec() },
    });
    let mut sent = Vec::new();
    for j in h.service_outbox() {
        if j.network == id {
            sent.extend(h.networks[0].send_udp_all(&j.parcel, &[true], 2_000));
        }
    }
    assert!(!sent.is_empty());
    let first = parse_packet(&sent.last().unwrap().data).unwrap();
    assert_eq!(first.payload, b"hello");
    assert!(h.networks[0].reliable_service(&[true], 2_059).is_empty());
    assert_eq!(next_transport_wait_ms(&h.networks, 2_059), 1);
    let again = h.networks[0].reliable_service(&[true], 2_060);
    assert_eq!(again.len(), 1);
    assert_eq!(parse_packet(&again[0].data).unwrap().seq, first.seq);
    let ack = wire_packet("net-0001", b"guest", KIND_ACK, 0, 0, first.seq, b"");
    h.networks[0].on_datagram(&mut h.delivery, &ack, "10.0.0.2", 5000, 2_070);
    assert!(h.networks[0].reliable_service(&[true], 9_000).is_empty());
    assert_eq!(next_transport_wait_ms(&h.networks, 9_000), 2);
}

#[test]
fn burst_is_sent_in_batches() {
    let (mut h, id) = with_guest(1_000);
    while !h.service_outbox().is_empty() {}
    for i in 0..300u32 {
        h.enqueue_out(OutJob {
            network: id,
            parcel: Parcel { kind: KIND_MSG, options: 0, payload: i.to_le_bytes().to_vec() },
        });
    }
    assert_eq!(h.service_outbox().len(), 128);
    assert_eq!(h.drain_outbox_for(id).len(), 172);
    assert!(h.service_outbox().is_empty());
}

#[test]
fn polling_goes_on_while_the_broker_is_silent() {
    let (mut h, id) = host(1_000);
    let mut asked = 0;
    let mut now = 1_300;
    for _ in 0..10 {
        pump(&mut h, &[], now);
        for t in h.requests.drain(..) {
            if let BrokerTask::PollPeers { epoch, .. } = t {
                assert_eq!(epoch, id);
                asked += 1;
            }
        }
        now += 3_000;
    }
    assert!(asked >= 2, "{asked}");
}

#[test]
fn messages_of_strangers_wait() {
    let (mut h, _) = host(1_000);
    let net = &mut h.networks[0];
    let pkt = wire_packet("net-0001", b"guest", KIND_MSG, GUAR_SEQ, 1, 0, b"early");
    assert!(net.on_datagram(&mut h.delivery, &pkt, "10.0.0.2", 5000, 1_100));
    assert!(net.remotes.is_empty());
    assert_eq!(net.pending_rx.len(), 1);
    assert!(!net.on_datagram(&mut h.delivery, b"GARBAGE", "10.0.0.2", 5000, 1_100));
    let hello = wire_packet("net-0001", b"guest", KIND_HELLO, 0, 0, 0, b"");
    assert!(net.on_datagram(&mut h.delivery, &hello, "10.0.0.2", 5000, 1_100));
    assert!(net.poll_requested);
}

#[test]
fn packet_is_read_back() {
    let p = wire_packet("net-0001", b"guest", KIND_MSG, GUAR_SEQ, 7, 5, b"payload");
    assert_eq!(p.len(), HDR_LEN + 7);
    let d = parse_packet(&p).unwrap();
    assert_eq!(d.kind, KIND_MSG);
    assert_eq!(d.entity, "guest");
    assert_eq!(d.options, GUAR_SEQ);
    assert_eq!(d.seq, 7);
    assert_eq!(d.ack, 5);
    assert_eq!(d.payload, b"payload");
    assert!(parse_packet(&p[..HDR_LEN - 1]).is_none());
    let mut other = p.clone();
    other[0] = b'X';
    assert!(parse_packet(&other).is_none());
}

#[test]
fn batch_is_kept_until_it_is_given_back() {
    let mut d = Delivery::new();
    for i in 0..40u64 {
        d.queue(Change::Connected { network: i });
    }
    d.start(false);
    assert_eq!(d.in_flight.len(), BATCH_CAP);
    d.start(false);
    assert_eq!(d.in_flight.len(), BATCH_CAP);
    assert_eq!(d.pending.len(), 40 - BATCH_CAP);
    let back: Vec<Option<Returned>> =
        d.in_flight.iter().map(|c| Some(Returned { kind: c.kind(), network: Some(0) })).collect();
    d.finish(&back);
    d.start(false);
    assert_eq!(d.in_flight.len(), 8);
}

#[test]
fn only_messages_are_dropped_when_the_queue_is_full() {
    let mut d = Delivery::new();
    let message = |n: u64| Change::Message {
        network: n,
        entity: "guest".to_string(),
        options: 0,
        payload: vec![1],
    };
    for i in 0..PENDING_CAP as u64 {
        assert!(d.queue(message(i)));
    }
    assert!(!d.queue(message(999)));
    assert!(d.queue(Change::Connected { network: 1 }));
    assert_eq!(d.ledger.dropped, 1);
    assert_eq!(d.pending.len(), PENDING_CAP + 1);
}

#[test]
fn held_messages_stay_in_the_queue() {
    let mut d = Delivery::new();
    d.queue(Change::Message {
        network: 1,
        entity: "guest".to_string(),
        options: 0,
        payload: vec![1],
    });
    d.queue(Change::Connected { network: 1 });
    d.start(true);
    let kinds: Vec<u32> = d.in_flight.iter().map(|c| c.kind()).collect();
    assert_eq!(kinds, vec![3]);
    assert_eq!(d.pending.len(), 1);
    d.finish(&[Some(Returned { kind: 3, network: Some(1) })]);
    d.start(false);
    assert_eq!(d.in_flight[0].kind(), 21);
}

#[test]
fn descriptor_line_is_read_back() {
    let mut d = Descriptor::new("abcdef0123456789");
    d.set_advert_ip(ip(192, 168, 0, 7));
    d.set_port(4321);
    let line = serialize_desc(&d, ip(0, 0, 0, 0)).unwrap();
    assert!(line.starts_with("LAN1.abcdef0123456789"));
    let (ok, back) = deserialize_desc(&line);
    assert!(ok);
    assert_eq!(back.id_str(), "abcdef0123456789");
    let a = back.advert_ip().unwrap();
    assert_eq!((a.a, a.b, a.c, a.d), (192, 168, 0, 7));
    let (id, at) = parse_lan1(&line);
    assert_eq!(id, "abcdef0123456789");
    assert!(at.is_some());
    assert_eq!(ip_string(ip(1, 2, 3, 4)), "1.2.3.4");
}

#[test]
fn loopback_of_a_peer_is_rewritten_to_the_host() {
    let mut d = Descriptor::new("abcdef0123456789");
    d.set_advert_ip(ip(192, 168, 0, 7));
    assert_eq!(rewrite_peer_ip("127.0.0.1".to_string(), &d), "192.168.0.7");
    assert_eq!(rewrite_peer_ip("10.0.0.2".to_string(), &d), "10.0.0.2");
}

#[test]
fn own_address_is_the_best_known_one() {
    let a = lan_ip(None, Some(ip(10, 0, 0, 5)), Some(ip(10, 0, 0, 6)));
    assert_eq!((a.a, a.d), (10, 5));
    let b = lan_ip(Some(ip(10, 0, 0, 4)), Some(ip(10, 0, 0, 5)), None);
    assert_eq!(b.d, 4);
    assert_ne!(uuid_ident(1, 12345), uuid_ident(2, 12345));
}

#[test]
fn newest_registration_replaces_the_older_one() {
    let mut q = Vec::new();
    for port in [1u16, 2, 3] {
        dispatch_broker(
            &mut q,
            BrokerTask::Register {
                network_id: "net".to_string(),
                entity: "host".to_string(),
                udp_port: port,
                quiet: true,
            },
        );
    }
    assert!(q.len() <= 3);
    match q.last().unwrap() {
        BrokerTask::Register { udp_port, .. } => assert_eq!(*udp_port, 3),
        _ => panic!("no registration"),
    }
}

#[test]
fn requests_to_the_broker_are_written() {
    assert_eq!(
        register_body("net", "host", 4000, "10.0.0.1"),
        "{\"network_id\":\"net\",\"entity_id\":\"host\",\"udp_port\":4000,\"ip\":\"10.0.0.1\"}"
    );
    assert_eq!(leave_body("net", "host"), "{\"network_id\":\"net\",\"entity_id\":\"host\"}");
    assert_eq!(peers_path("net"), "/party/peers?network_id=net");
}

#[test]
fn replies_of_the_broker_are_read() {
    let r = read_reply(b"HTTP/1.1 404 Not Found\r\nContent-Length: 2\r\n\r\n{}").unwrap();
    assert_eq!(r.0, 404);
    assert_eq!(r.1, "{}");
    assert!(read_reply(b"nonsense").is_none());
    let text = "{\"members\":[{\"entity_id\":\"guest\",\"ip\":\"10.0.0.2\",\"udp_port\":5000},{\"entity_id\":\"\",\"ip\":\"1\",\"udp_port\":1}]}";
    assert_eq!(json_arr_objects(text, "members").len(), 2);
    let p = read_peers(Some(text.to_string()), 9);
    assert_eq!(p.seq, 9);
    assert!(p.members.iter().any(|m| m.entity == "guest" && m.udp_port == 5000));
    assert!(read_peers(None, 9).members.is_empty());
    let req = http_request("POST", "/party/join", "h", 1, "", b"{}");
    assert!(req.starts_with(b"POST /party/join HTTP/1.1\r\nHost: h:1\r\n"));
    assert!(req.ends_with(b"\r\n\r\n{}"));
}

#[test]
fn messages_have_a_size() {
    assert!(accepts_message(0, 1, 100));
    assert!(accepts_message(8, 8, 65536));
    assert!(!accepts_message(9, 1, 100));
    assert!(!accepts_message(0, 0, 100));
    assert!(!accepts_message(0, 9, 100));
    assert!(!accepts_message(0, 1, 0));
    assert!(!accepts_message(0, 1, 65537));
    assert_eq!(recv_opts_for(7), 3);
}

#[test]
fn joining_of_a_peer_ends_a_batch() {
    let mut d = Delivery::new();
    d.queue(Change::Connected { network: 1 });
    d.queue(Change::RemoteJoined { network: 1, entity: "guest".to_string(), uid: 2 });
    d.queue(Change::Connected { network: 2 });
    d.start(false);
    let kinds: Vec<u32> = d.in_flight.iter().map(|c| c.kind()).collect();
    assert_eq!(kinds, vec![3, 12]);
    assert_eq!(d.pending.len(), 1);
}

#[test]
fn peers_wait_until_the_endpoint_is_known() {
    let mut h = Handle::new(0, counters());
    h.create_local_user("host");
    let id = h.create_new_network("net-0001", Some("host".to_string()), 4000, ip(10, 0, 0, 1), 0);
    let net = &mut h.networks[0];
    assert!(!net.ensure_remote(&mut h.delivery, guest(), true, 7));
    assert!(net.remotes.is_empty());
    let (mut h, again) = with_guest(1_000);
    assert_eq!(id, again);
    let net = &mut h.networks[0];
    assert!(!net.ensure_remote(&mut h.delivery, guest(), true, 9));
    assert_eq!(net.remotes.len(), 1);
}

#[test]
fn network_without_a_socket_is_silent() {
    let (mut h, _) = with_guest(1_000);
    let p = Parcel { kind: KIND_MSG, options: GUAR_SEQ, payload: b"hello".to_vec() };
    let net = &mut h.networks[0];
    net.bound = false;
    assert!(net.send_udp_all(&p, &[true], 2_000).is_empty());
    assert!(net.reliable_service(&[true], 9_000).is_empty());
    net.bound = true;
    let out = net.send_udp_all(&p, &[true], 9_000);
    assert_eq!(out.len(), 1);
    assert_eq!(parse_packet(&out[0].data).unwrap().payload, b"hello");
    assert!(net.send_udp_all(&p, &[false], 9_000).is_empty());
}

#[test]
fn only_registrations_leave_a_full_queue() {
    let register = |i: usize| BrokerTask::Register {
        network_id: format!("net-{i}"),
        entity: "host".to_string(),
        udp_port: 1,
        quiet: true,
    };
    let mut q = Vec::new();
    dispatch_broker(&mut q, BrokerTask::Leave { network_id: "net".to_string(), entity: "a".to_string() });
    dispatch_broker(&mut q, BrokerTask::PollPeers { network_id: "net".to_string(), epoch: 1, seq: 1 });
    for i in 0..600 {
        dispatch_broker(&mut q, register(i));
    }
    assert_eq!(q.len(), QUEUE_CAP);
    assert!(matches!(q[0], BrokerTask::Leave { .. }));
    assert!(matches!(q[1], BrokerTask::PollPeers { .. }));
    match &q[2] {
        BrokerTask::Register { network_id, .. } => assert_eq!(network_id, "net-90"),
        _ => panic!("no registration"),
    }
}

#[test]
fn connection_is_told_of_once() {
    let (mut h, id) = host(1_000);
    for i in 0..5 {
        assert!(!pump(&mut h, &[], 2_000 + i * 500).contains(&3));
    }
    h.leave_network(id);
    assert_eq!(h.network_count(), 0);
    assert!(!h.left[0].bound && !h.left[0].connect_completed);
    assert!(pump(&mut h, &[], 9_000).contains(&19));
}

#[test]
fn entity_with_a_zero_character_has_another_name() {
    let (mut h, _) = host(1_000);
    let p = Peer { entity: "a\0b".to_string(), ip: "10.0.0.3".to_string(), udp_port: 5001 };
    let net = &mut h.networks[0];
    assert!(net.ensure_remote(&mut h.delivery, p, true, 7));
    assert_eq!(net.remotes[0].0, "a\0b");
    assert_eq!(net.remotes[0].1.entity, "x");
    assert_eq!(tell_entity("guest"), "guest");
}

#[test]
fn fates_of_messages_are_counted() {
    let (mut h, id) = with_guest(1_000);
    let before = h.fared();
    let hello = Parcel { kind: KIND_MSG, options: GUAR_SEQ, payload: b"hello".to_vec() };
    let net = &mut h.networks[0];
    let first = net.send_udp_all(&hello, &[true], 2_000);
    net.send_udp_all(&hello, &[true], 2_000);
    net.send_udp_all(&Parcel { kind: KIND_MSG, options: 0, payload: vec![1] }, &[true], 2_000);
    net.send_udp_all(&hello, &[false], 2_000);
    assert_eq!(net.counts.guar_seq.sent, before.guar_seq.sent + 2);
    assert_eq!(net.counts.best_nonseq.sent, 1);
    // Repetitions, then the acknowledgement of both.
    assert_eq!(net.reliable_service(&[true], 2_060).len(), 2);
    assert_eq!(net.counts.guar_seq.retransmitted, 2);
    let seq = parse_packet(&first[0].data).unwrap().seq + 1;
    let ack = wire_packet("net-0001", b"guest", KIND_ACK, 0, 0, seq, b"");
    net.on_datagram(&mut h.delivery, &ack, "10.0.0.2", 5000, 2_070);
    net.on_datagram(&mut h.delivery, &ack, "10.0.0.2", 5000, 2_071);
    assert_eq!(net.counts.guar_seq.acked, 2);
    // An early message, a duplicate of it, and an old best-effort one.
    let msg = |options: u32, seq: u32| wire_packet("net-0001", b"guest", KIND_MSG, options, seq, 0, b"m");
    net.on_datagram(&mut h.delivery, &msg(GUAR_SEQ, 2), "10.0.0.2", 5000, 2_080);
    net.on_datagram(&mut h.delivery, &msg(GUAR_SEQ, 2), "10.0.0.2", 5000, 2_081);
    net.on_datagram(&mut h.delivery, &msg(2, 5), "10.0.0.2", 5000, 2_082);
    net.on_datagram(&mut h.delivery, &msg(2, 4), "10.0.0.2", 5000, 2_083);
    assert_eq!(net.counts.guar_seq.ooo_queued, 1);
    assert_eq!(net.counts.guar_seq.dup_dropped, 1);
    assert_eq!(net.counts.best_seq.ooo_dropped, 1);
    // A buffer that overflows evicts.
    for seq in 3..=258 {
        net.on_datagram(&mut h.delivery, &msg(GUAR_SEQ, seq), "10.0.0.2", 5000, 2_090);
    }
    assert_eq!(net.counts.guar_seq.ooo_queued, 257);
    assert_eq!(net.counts.guar_seq.evicted, 1);
    // So does a table of pending messages, under the options of the message that leaves.
    let other = Parcel { kind: KIND_MSG, options: 1, payload: vec![1] };
    for _ in 0..4097 {
        net.send_udp_all(&other, &[true], 2_100);
    }
    assert_eq!(net.counts.guar_nonseq.sent, 4097);
    assert_eq!(net.counts.guar_nonseq.evicted, 1);
    h.leave_network(id);
    assert_eq!(h.fared().guar_nonseq.sent, 4097);
    assert_eq!(h.fared().listed().len(), 4);
}
