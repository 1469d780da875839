use gbfr_lan::delivery::{Change, Delivery};
use gbfr_lan::diag::{fmt_ops, is_chara_snapshot, ledger_text, reliable_stats_note, with_hidden};
use gbfr_lan::diag::{ChangeGate, EventTable, Gate, Marks, MessageStats, RelCounts, Sampler};
use gbfr_lan::diag::{RateLimit, StateLog, ThreadTable, Throttle, RATE_KEYS, RATE_LIMIT};
use gbfr_lan::notes::{fmt_type_counts, hex_preview, hex_text, hex_word_text, join};
use gbfr_lan::notes::{opcode3_entity, payload_hints, s32, s8, sbool, sptr, u32le};
use gbfr_lan::probes::{boot_queue_read, count_rows, fnv1a, m1_read, mix, mix_all, page_has_read};
use gbfr_lan::probes::{readable, tally_notices, tally_tasks, LoaderTask, Node, Region};
use gbfr_lan::lobby_probe::{finish_line, start_line, QueueBeat, QueueState, QueueTotals};
use gbfr_lan::quest_lines::{queue_rows_note, quest_action_note, quest_array_note, quest_guard_note};
use gbfr_lan::quest_lines::{quest_sync_note, work_rows_note, Bucket, FieldReading, IdTable};
use gbfr_lan::quest_lines::{QueueReading, SyncReading, Timeline, TimelineLook};
use gbfr_lan::session_probe::{export_trace, MemberSlot, ReadyRow};
use gbfr_lan::traffic::{stats_line, type12_hold_note, OptionsSeen, Traffic};
use std::collections::BTreeMap;

#[test]
fn readings_are_written() {
    assert_eq!(s32(Some(7)), "7");
    assert_eq!(s32(None), "ro");
    assert_eq!(s8(Some(255)), "255");
    assert_eq!(sbool(Some(false)), "false");
    assert_eq!(sptr(Some(0x1f00)), "0x1f00");
    assert_eq!(sptr(None), "ro");
    assert_eq!(hex_text(0), "0x0");
    assert_eq!(hex_word_text(0xabc), "0x00000abc");
    assert_eq!(hex_preview(&[1, 2, 255], 2), "01 02");
    assert_eq!(hex_preview(&[1, 2, 255], 9), "01 02 ff");
    assert_eq!(join(&vec!["a".to_string(), "b".to_string()], ", "), "a, b");
    assert_eq!(u32le(&[0, 1, 0, 0, 0], 1), Some(1));
    assert_eq!(u32le(&[0, 1, 0, 0], 1), None);
}

#[test]
fn messages_are_described() {
    let mut m = vec![0u8; 20];
    m[0] = 2;
    m[4] = 9;
    m[16] = 4;
    assert_eq!(payload_hints(&m), "op=2 dispatch sub=9 WATCH_4 dword@+10=4");
    m.resize(790, 0);
    m[16] = 3;
    assert_eq!(payload_hints(&m), "op=2 dispatch sub=9 dword@+10=3 sz~0x2FC_chara sz~cpu_chara");
    assert_eq!(payload_hints(&[1]), "");
    let mut e = vec![0u8; 34];
    assert_eq!(opcode3_entity(&e), "");
    e.extend_from_slice(b"guest\0rest");
    assert_eq!(opcode3_entity(&e), " ent@+22=guest");
    e[35] = 7;
    assert!(opcode3_entity(&e).starts_with(" ent@+22hex=[67 07 65 73 74 00"));
    e[34] = 0;
    assert_eq!(opcode3_entity(&e), " ent@+22=empty");
}

#[test]
fn lines_come_once_in_a_while() {
    let mut g = Gate::new();
    assert!(g.due(1_000, 500));
    assert!(!g.due(1_499, 500));
    assert!(g.due(1_500, 500));
    assert_eq!((g.passed, g.skipped), (2, 1));
    let mut c = ChangeGate::new();
    assert_eq!(c.pass(1, 1_000, 5_000), (true, true));
    assert_eq!(c.pass(1, 1_001, 5_000), (false, false));
    assert_eq!(c.pass(2, 1_002, 5_000), (true, false));
    assert_eq!(c.pass(2, 6_002, 5_000), (true, true));
}

#[test]
fn state_of_the_queue_is_told_on_change() {
    let mut s = StateLog::new(0);
    assert_eq!(s.due((1, 0, 0, false), 0), 1);
    assert_eq!(s.due((1, 0, 0, false), 1), 0);
    assert_eq!(s.due((1, 1, 0, false), 2), 1);
    assert_eq!(s.due((1, 1, 0, false), 1_000_000), 2);
}

#[test]
fn repeated_lines_are_counted() {
    let mut t = Throttle::new();
    assert_eq!(t.pass("k", 0), None);
    assert_eq!(t.pass("k", 999), None);
    assert_eq!(t.pass("k", 1_000), Some(2));
    assert_eq!(t.pass("k", 2_000), Some(0));
    assert_eq!(with_hidden("line", 0), "line");
    assert_eq!(with_hidden("line", 2), "line [+2 more in the previous second]");
    let mut s = Sampler::new();
    let told: Vec<u32> = (1..=500).filter(|_| s.should_log_payload("k", false)).collect();
    assert_eq!(told.len(), 20);
    assert_eq!(told[16..], [50, 100, 250, 500]);
    assert!(s.should_log_payload("k", true));
}

#[test]
fn events_are_counted_by_value() {
    let mut t = EventTable::new();
    assert!(t.note_eventbus(Some(5)));
    assert!(!t.note_eventbus(Some(5)));
    assert!(t.note_eventbus(Some(6)));
    assert!(!t.note_eventbus(None));
    assert_eq!(t.slots, vec![(5, 2), (6, 1)]);
    assert_eq!((t.seen, t.missing, t.overflow), (3, 1, 0));
    for i in 0..20 {
        t.note_eventbus(Some(100 + i));
    }
    assert_eq!(t.slots.len(), 16);
    assert_eq!(t.overflow, 6);
}

#[test]
fn threads_are_told_apart() {
    let mut t = ThreadTable::new();
    assert!(t.note_party_thread(0x10));
    assert!(!t.note_party_thread(0x10));
    assert!(t.note_party_thread(0x20));
    assert_eq!(t.thread_probe_note(0x20), "threads=2 now=0x20 [0x10:2 0x20:1]");
    for i in 0..8 {
        t.note_party_thread(0x100 + i);
    }
    assert!(t.thread_probe_note(1).ends_with(" overflow]"));
}

#[test]
fn traffic_is_told_of_from_time_to_time() {
    let mut m = MessageStats::new(0);
    assert!(!m.bump_msg_stats(true, 3, 100, false));
    assert!(m.bump_msg_stats(false, 4, 30_000, false));
    assert!(!m.bump_msg_stats(true, 3, 30_001, true));
    assert!(m.bump_msg_stats(true, 3, 35_000, true));
    assert_eq!((m.sent, m.received), (3, 1));
    assert_eq!(fmt_ops(&m.sent_kinds), "3:3");
    let mut b = BTreeMap::new();
    b.insert(9, 1);
    b.insert(2, 5);
    assert_eq!(fmt_ops(&b), "2:5,9:1");
    assert_eq!(fmt_type_counts(&vec![0, 3, 0, 1]), "1x3 3x1");
    assert_eq!(fmt_type_counts(&vec![0]), "-");
}

#[test]
fn delivery_is_told_by_mode() {
    let zero = RelCounts {
        sent: 0,
        retransmitted: 0,
        acked: 0,
        dup_dropped: 0,
        ooo_dropped: 0,
        ooo_queued: 0,
        evicted: 0,
    };
    assert_eq!(reliable_stats_note(&vec![zero, zero, zero, zero]), "reliable=none");
    let some = RelCounts { sent: 4, acked: 3, ..zero };
    assert_eq!(
        reliable_stats_note(&vec![zero, some, zero, zero]),
        "reliable guar-nonseq(sent=4 retransmitted=0 acked=3 dup-dropped=0 out-of-order-dropped=0 out-of-order-queued=0 evicted=0)"
    );
}

#[test]
fn messages_leave_marks() {
    assert!(is_chara_snapshot(2, 600));
    assert!(!is_chara_snapshot(2, 599));
    let mut m = Marks {
        guest_ready_sent: false,
        snapshot_sent: false,
        sync_sent: false,
        sync_received: false,
    };
    m.note(true, &[3, 0, 0, 0, 5, 0, 0, 0]);
    m.note(false, &[3, 0, 0, 0, 7, 0, 0, 0]);
    assert!(m.guest_ready_sent && m.sync_received && !m.sync_sent && !m.snapshot_sent);
}

#[test]
fn queue_is_told_in_one_line() {
    let mut d = Delivery::new();
    d.queue(Change::Connected { network: 1 });
    assert_eq!(
        ledger_text(&d, "test", "0/0", 3),
        "delivery ledger[test] pending=1 in_flight=0 batches=0 last_out=0 last_reclaimed=0 queued=[3x1] out=[-] back=[-] deferred21=0 cap_hits=0 dropped=0 type12_hold=0/0 hb_skipped=3"
    );
}

#[test]
fn memory_is_read_only_where_it_may_be() {
    assert!(page_has_read(0x04));
    assert!(!page_has_read(0x104));
    assert!(!page_has_read(0x01));
    let g = Some(Region { start: 0x1000, size: 0x1000, committed: true, protect: 0x02 });
    assert!(readable(0x1ff0, 16, &g));
    assert!(!readable(0x1ff1, 16, &g));
    assert!(!readable(0, 16, &g));
    assert!(!readable(0x1ff0, 16, &None));
    assert_eq!(count_rows(0x100, 0x160, 0x20), Some(3));
    assert_eq!(count_rows(0x100, 0x161, 0x20), None);
    assert_eq!(count_rows(0x100, 0x100 + 17 * 0x20, 0x20), None);
}

#[test]
fn hashes_are_those_of_the_well_known_function() {
    assert_eq!(fnv1a(""), 0xcbf29ce484222325);
    assert_eq!(fnv1a("a"), 0xaf63dc4c8601ec8c);
    assert_eq!(fnv1a("foobar"), 0x85944171f73967e8);
    let v = vec![Some(1), None];
    assert_eq!(mix_all(&v), mix(mix(0xcbf29ce484222325, Some(1)), None));
}

#[test]
fn operations_are_looked_for() {
    let node = |h: u32, next: bool| Node { hash: Some(h), name_len: Some(4), next };
    let r = m1_read(&vec![node(1, true), node(2, true)], 2).unwrap();
    assert!(r.present && !r.cut);
    assert!(m1_read(&vec![node(1, false)], 2).is_none());
    assert!(!m1_read(&vec![], 2).unwrap().present);
    let q = boot_queue_read(&vec![(8, 1), (9, 2), (7, 2)], 3, 2);
    assert_eq!((q.hits, q.total, q.mode, q.cut), (2, 3, Some(9), false));
    let t = tally_tasks(
        &vec![
            LoaderTask::Absent,
            LoaderTask::Task { state: 2, result: 5, hash: 1 },
            LoaderTask::Unreadable,
        ],
        3,
        1,
    );
    assert_eq!((t.read, t.ended, t.found, t.blind), (1, 1, Some((2, 5)), true));
    let n = tally_notices(&vec![(1, 4), (1, 5), (2, 4), (3, 4)], 4, 4);
    assert_eq!((n.waiting_here, n.waiting, n.ends, n.closes), (1, 2, 1, 1));
}

#[test]
fn exports_are_named_by_their_bits() {
    assert_eq!(export_trace(0), "-");
    assert_eq!(export_trace(1 | 8 | 128), "Deserialize,StartProcessing,Cleanup");
}

#[test]
fn quest_lines_are_written() {
    let f = FieldReading { name: "6c814".to_string(), direct: Some(5), via: None };
    assert_eq!(
        quest_guard_note(0x10, &vec![f], Some((2, 3))),
        "quest_guard g=0x10 6c814=d5/v4294967295 session+4=2 +4ac=3"
    );
    let o = SyncReading {
        name: "cont".to_string(),
        pointer: Some(0x20),
        direct: Some((1, 2)),
        via: Some((3, 4, 5)),
    };
    let gone =
        SyncReading { name: "ctrl".to_string(), pointer: None, direct: None, via: None };
    assert_eq!(
        quest_sync_note(&vec![o, gone]),
        "quest_sync cont=0x20 (contd=1/2) (contv=3/4/5) ctrl=unreadable"
    );
    assert_eq!(quest_action_note(0, None).unwrap(), "quest_action p=0");
    assert_eq!(quest_action_note(8, Some((0xce, 1))).unwrap(), "quest_action code=0xce done=1");
    assert!(quest_action_note(8, None).is_none());
}

#[test]
fn only_the_most_urgent_notices_are_tested() {
    let b = |count: u32, last: Option<(u32, u32, u8)>| Bucket { count: Some(count), last };
    assert_eq!(
        quest_array_note(0x10, &vec![b(0, None), b(2, Some((0xa, 1, 0))), b(1, None), b(0, None)]),
        "quest_array p=0x10 b3=2(tested) last[c0xa kind1 12:0] b2=1 bad_base"
    );
    assert_eq!(
        quest_array_note(0x10, &vec![Bucket { count: None, last: None }, b(1, None)]),
        "quest_array p=0x10 all_buckets_empty"
    );
    assert_eq!(quest_array_note(0, &vec![]), "quest_array p=0");
}

#[test]
fn rows_and_identifiers_are_written() {
    let rows = vec![ReadyRow { id: -1, state: 2, timer: 3, skip: 0 }];
    assert_eq!(
        queue_rows_note(&QueueReading::Rows { address: 0x10, flag: 1, rows }),
        "queue=0x10 fl=1 [-1:2:t3:s0]"
    );
    assert_eq!(queue_rows_note(&QueueReading::Unknown), "queue=?");
    let s = MemberSlot {
        id: 1,
        flag: 1,
        unique: -1,
        stage: 3,
        rank: 0,
        entity: String::new(),
    };
    assert_eq!(work_rows_note(&vec![s]), "rows=[id=1 +8=-1 +70=1 +a0=3]");
    assert_eq!(work_rows_note(&vec![]), "rows=0");
    let mut t = IdTable::new();
    let mut filled = vec![false; 12];
    filled[0] = true;
    filled[9] = true;
    assert_eq!(t.id_table_note(&filled).unwrap(), "lookup_ids filled=2/12 mask=0x0201");
    assert!(t.id_table_note(&filled).is_none());
}

#[test]
fn coming_up_of_a_mesh_is_told_for_a_while() {
    let mut t = Timeline::new();
    let l = TimelineLook { mode: 1, state: 2, leaf: 0, party: 0x30, invitation: 9 };
    assert!(t.look(&l, "rows=0", "queue=?", "-").is_none());
    t.arm();
    let first = t.look(&l, "rows=0", "queue=?", "-").unwrap();
    assert_eq!(
        first,
        "mesh-start timeline[48] mode0=1 +4=2 +28=0x0 party=0x30 inv=9 rows=0 queue=? exports=[-]"
    );
    for _ in 0..47 {
        t.look(&l, "rows=0", "queue=?", "-");
    }
    assert_eq!(t.left, 0);
    assert!(t.look(&l, "rows=0", "queue=?", "-").is_none());
}

#[test]
fn messages_are_told_of_on_demand() {
    let mut t = Traffic::new(0);
    let data = [3u8, 0, 0, 0, 5, 0, 0, 0];
    let (due, lines) = t.log_payload(true, "x", &data, 1, false, false);
    assert!(!due && lines.is_empty());
    assert!(t.marks.guest_ready_sent);
    let (_, lines) = t.log_payload(true, "x", &data, 2, true, false);
    assert_eq!(
        lines,
        vec![
            "send opcode=3 len=8 sub=5 x".to_string(),
            "send_hex opcode=3 len=8 x op=3 sub=5 hex=[03 00 00 00 05 00 00 00]".to_string(),
        ]
    );
    for _ in 0..15 {
        t.log_payload(true, "x", &data, 3, true, false);
    }
    assert_eq!(t.log_payload(true, "x", &data, 4, true, false).1.len(), 1);
    assert_eq!(t.log_payload(true, "x", &data, 5, true, true).1.len(), 2);
    assert_eq!(
        stats_line(&t.stats, "reliable=none", 1, 2, ""),
        "msg_stats send=19 recv=0 send_ops=3:19 recv_ops= reliable=none probes_run=1 probes_skipped=2"
    );
    let mut o = OptionsSeen::new();
    assert!(o.log_send_options_once(3).unwrap().starts_with("send options word 0x00000003 decoded: "));
    assert!(o.log_send_options_once(3).is_none());
    assert_eq!(type12_hold_note(&vec![], 0), "none");
}

#[test]
fn queue_of_the_lobby_client_is_told_of() {
    let mut totals = QueueTotals::new();
    let s = QueueState { pending: 2, in_flight: 1, outstanding: true };
    totals.probe_snapshot(&s);
    assert_eq!((totals.max_pending, totals.max_in_flight), (2, 1));
    let mut b = QueueBeat::new();
    assert_eq!(
        b.beat(&s, &totals, 0).unwrap(),
        "pfqueue hb pending=2 inflight=1 outstanding=1 starts=0 finishes=0 batches_nonzero=0 queued=0 reclaimed=0 max_pending=2 max_inflight=1 latch=0 stray=0 mismatch=0 changed=1"
    );
    assert!(b.beat(&s, &totals, 29_999).is_none());
    assert!(b.beat(&s, &totals, 30_000).unwrap().ends_with("mismatch=0"));
    assert_eq!(
        start_line(1, &s, true),
        "pfqueue start n=1 pending=2 inflight=1 outstanding=1 changed=1"
    );
    assert_eq!(
        finish_line(0, 2, false),
        "pfqueue finish count=0 reclaimed=0 pending=2 inflight=0 outstanding=0 hb=1"
    );
}

#[test]
fn lines_of_a_kind_are_told_once_in_a_while() {
    let mut r = RateLimit::new();
    assert!(r.due("a", 100));
    assert!(!r.due("a", 100 + RATE_LIMIT - 1));
    assert!(r.due("b", 200));
    assert!(!r.due("a", 50));
    assert!(r.due("a", 100 + RATE_LIMIT));
    for i in 0..RATE_KEYS - 1 {
        assert!(r.due(&format!("k{i}"), 300));
    }
    assert_eq!(r.told.len(), RATE_KEYS + 1);
    // Too many kinds: all are forgotten.
    assert!(r.due("k0", 301));
    assert_eq!(r.told.len(), 1);
}
