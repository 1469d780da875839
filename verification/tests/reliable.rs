use gbfr_lan::reliable::{decode_options, guaranteed, mode_index, mode_name, seq_after, seq_le, sequential};
use gbfr_lan::reliable::{Receiver, RecvOutcome, Sender};
use gbfr_lan::reliable::{
    ACK_DELAY_MS, MAX_RETRIES, OOO_CAP, PENDING_CAP, RTO_FIRST_MS, RTO_MAX_MS,
    SEND_ALLOW_LAZY_ACKNOWLEDGEMENT, SEND_GUARANTEED, SEND_SEQUENTIAL,
};
use std::collections::BTreeMap;

struct Lcg(u64);

impl Lcg {
    fn next(&mut self) -> u64 {
        self.0 = self.0.wrapping_mul(6364136223846793005).wrapping_add(1442695040888963407);
        self.0 >> 33
    }

    fn jitter(&mut self, max: u64) -> u64 {
        if max == 0 {
            0
        } else {
            self.next() % (max + 1)
        }
    }
}

fn payload(i: u32) -> Vec<u8> {
    format!("msg-{i:04}").into_bytes()
}

type Wire = BTreeMap<u64, Vec<(u32, Vec<u8>)>>;

struct Link {
    rng: Lcg,
    drop_mod: u64,
    dup_mod: u64,
    jitter_ms: u64,
}

impl Link {
    fn schedule(&mut self, map: &mut Wire, now: u64, seq: u32, pay: Vec<u8>) {
        if self.drop_mod != 0 && self.rng.next() % self.drop_mod == 0 {
            return;
        }
        let jitter = self.rng.jitter(self.jitter_ms);
        map.entry(now + jitter).or_default().push((seq, pay.clone()));
        if self.dup_mod != 0 && self.rng.next() % self.dup_mod == 0 {
            let more = self.rng.jitter(self.jitter_ms);
            map.entry(now + jitter + more).or_default().push((seq, pay));
        }
    }
}

struct Run {
    delivered: Vec<Vec<u8>>,
    retransmits: u32,
    converged: bool,
    pending_left: usize,
    buffered_left: usize,
}

fn simulate(seed: u64, n: u32, options: u32, drop_mod: u64, dup_mod: u64, jitter_ms: u64) -> Run {
    let mut link = Link { rng: Lcg(seed), drop_mod, dup_mod, jitter_ms };
    let mut tx = Sender::new();
    let mut rx = Receiver::new();
    let mut a2b: Wire = BTreeMap::new();
    let mut b2a: BTreeMap<u64, Vec<u32>> = BTreeMap::new();
    let mut delivered: Vec<Vec<u8>> = Vec::new();
    let mut retransmits = 0u32;
    let mut next_msg = 0u32;
    let mut next_send_at = 0u64;
    let mut now = 0u64;
    let mut converged = false;
    while now < 60_000 && !converged {
        if next_msg < n && now >= next_send_at {
            let out = tx.send(payload(next_msg), options, now);
            link.schedule(&mut a2b, now, out.seq, out.payload);
            next_msg += 1;
            next_send_at = now + 7;
        }
        for r in tx.due(now) {
            if r.gave_up {
                continue;
            }
            retransmits += 1;
            link.schedule(&mut a2b, now, r.seq, r.payload);
        }
        while let Some((&t, _)) = a2b.first_key_value() {
            if t > now {
                break;
            }
            for (seq, pay) in a2b.remove(&t).unwrap() {
                if let RecvOutcome::Delivered(msgs) = rx.on_message(seq, options, pay, t) {
                    for m in msgs {
                        delivered.push(m.payload);
                    }
                }
                if guaranteed(options) && seq % 5 != 0 {
                    let ack = rx.piggyback_ack();
                    let jitter = link.rng.jitter(jitter_ms);
                    b2a.entry(t + jitter).or_default().push(ack);
                }
            }
        }
        if let Some(ack) = rx.forced_ack(now) {
            let jitter = link.rng.jitter(jitter_ms);
            b2a.entry(now + jitter).or_default().push(ack);
        }
        while let Some((&t, _)) = b2a.first_key_value() {
            if t > now {
                break;
            }
            for ack in b2a.remove(&t).unwrap() {
                tx.on_ack(ack);
            }
        }
        converged = next_msg == n
            && a2b.is_empty()
            && b2a.is_empty()
            && tx.pending.is_empty()
            && rx.buffered_len() == 0;
        now += 1;
    }
    Run {
        delivered,
        retransmits,
        converged,
        pending_left: tx.pending.len(),
        buffered_left: rx.buffered_len(),
    }
}

#[test]
fn guaranteed_sequential_over_a_lossy_link() {
    let r = simulate(0x1234_5678, 200, SEND_GUARANTEED | SEND_SEQUENTIAL, 4, 5, 17);
    let expected: Vec<Vec<u8>> = (0..200).map(payload).collect();
    assert!(r.converged);
    assert_eq!(r.delivered, expected);
    assert!(r.retransmits > 0);
    assert_eq!(r.pending_left, 0);
    assert_eq!(r.buffered_left, 0);
}

#[test]
fn guaranteed_nonsequential_over_a_lossy_link() {
    let r = simulate(0xABCD_1234, 200, SEND_GUARANTEED, 3, 6, 23);
    let mut got = r.delivered.clone();
    got.sort();
    let mut expected: Vec<Vec<u8>> = (0..200).map(payload).collect();
    expected.sort();
    assert!(r.converged);
    assert_eq!(got, expected);
    assert!(r.retransmits > 0);
}

#[test]
fn best_effort_sequential_drops_what_is_older() {
    let mut rx = Receiver::new();
    let o1 = rx.on_message(5, SEND_SEQUENTIAL, payload(5), 0);
    let o2 = rx.on_message(3, SEND_SEQUENTIAL, payload(3), 1);
    assert_eq!(rx.buffered_len(), 0);
    let o3 = rx.on_message(7, SEND_SEQUENTIAL, payload(7), 2);
    let o4 = rx.on_message(6, SEND_SEQUENTIAL, payload(6), 3);
    assert!(matches!(o1, RecvOutcome::Delivered(_)));
    assert!(matches!(o2, RecvOutcome::DroppedOutOfOrder { seq: 3, high: 5 }));
    assert!(matches!(o3, RecvOutcome::Delivered(_)));
    assert!(matches!(o4, RecvOutcome::DroppedOutOfOrder { seq: 6, high: 7 }));
    assert_eq!(rx.buffered_len(), 0);
}

#[test]
fn timeouts_double_and_retries_end() {
    let mut tx = Sender::new();
    let out = tx.send(payload(1), SEND_GUARANTEED, 1000);
    assert!(tx.due(1059).is_empty());
    let first = tx.due(1060);
    assert_eq!(first.len(), 1);
    assert!(first[0].first && first[0].retries == 1 && first[0].seq == out.seq && !first[0].gave_up);
    assert!(tx.due(1179).is_empty());
    let second = tx.due(1180);
    assert!(second.len() == 1 && !second[0].first && second[0].retries == 2);
    let mut t = 1180u64;
    let mut gave_up = 0;
    for _ in 0..20 {
        for r in tx.due(t) {
            if r.gave_up {
                gave_up += 1;
            }
        }
        t += 1000;
    }
    assert_eq!(gave_up, 1);
    assert_eq!(tx.pending.len(), 1);
    let p = tx.pending.values().next().unwrap();
    assert!(p.rto_ms <= RTO_MAX_MS);
    assert_eq!(p.retries, MAX_RETRIES);
}

#[test]
fn acknowledgements_are_cumulative() {
    let mut tx = Sender::new();
    for i in 1..=5 {
        tx.send(payload(i), SEND_GUARANTEED | SEND_SEQUENTIAL, 0);
    }
    let cleared = tx.on_ack(3);
    assert_eq!(cleared.len(), 3);
    assert_eq!(tx.pending.len(), 2);
    assert_eq!(tx.drop_all(), 2);
    assert_eq!(tx.pending.len(), 0);
}

#[test]
fn acknowledgement_is_forced_after_a_while() {
    let mut rx = Receiver::new();
    let _ = rx.on_message(1, SEND_GUARANTEED, payload(1), 1000);
    assert!(rx.forced_ack(1029).is_none());
    assert_eq!(rx.forced_ack(1030), Some(1));
    let mut lazy = Receiver::new();
    let _ = lazy.on_message(1, SEND_GUARANTEED | SEND_ALLOW_LAZY_ACKNOWLEDGEMENT, payload(1), 2000);
    assert!(lazy.forced_ack(2100).is_none());
}

#[test]
fn oldest_unacknowledged_message_is_evicted() {
    let mut tx = Sender::new();
    let mut evicted = None;
    for i in 0..(PENDING_CAP as u32 + 1) {
        let out = tx.send(payload(i), SEND_GUARANTEED, i as u64);
        if out.evicted.is_some() {
            evicted = out.evicted;
        }
    }
    assert_eq!(evicted, Some((1, SEND_GUARANTEED)));
    assert_eq!(tx.pending.len(), PENDING_CAP);
}

#[test]
fn buffer_of_early_messages_is_bounded() {
    let mut rx = Receiver::new();
    let mut evicted = None;
    for i in 2..(OOO_CAP as u32 + 5) {
        rx.on_message(i, SEND_GUARANTEED | SEND_SEQUENTIAL, payload(i), 0);
        if rx.last_evicted.is_some() {
            evicted = rx.last_evicted;
        }
    }
    assert!(rx.buffered_len() <= OOO_CAP);
    assert!(evicted.is_some());
    let _ = rx.on_message(0, 0, payload(0), 0);
    assert!(rx.last_evicted.is_none());
}

#[test]
fn deadlines_drive_retransmission_alone() {
    let mut tx = Sender::new();
    assert!(tx.next_rto_ms().is_none());
    let out = tx.send(payload(1), SEND_GUARANTEED | SEND_SEQUENTIAL, 0);
    assert_eq!(tx.next_rto_ms(), Some(RTO_FIRST_MS));
    let mut clock = 0u64;
    let mut sent: Vec<(u64, u32)> = Vec::new();
    for _ in 0..3 {
        clock = tx.next_rto_ms().unwrap();
        for r in tx.due(clock) {
            if !r.gave_up {
                sent.push((clock, r.retries));
            }
        }
    }
    assert_eq!(sent, vec![(60, 1), (180, 2), (420, 3)]);
    assert_eq!(tx.next_rto_ms(), Some(420 + 480));
    let mut rx = Receiver::new();
    let got = rx.on_message(out.seq, SEND_GUARANTEED | SEND_SEQUENTIAL, out.payload.clone(), clock);
    match got {
        RecvOutcome::Delivered(m) => {
            assert_eq!(m.len(), 1);
            assert_eq!(m[0].payload, out.payload);
        }
        _ => panic!("not delivered"),
    }
    tx.on_ack(rx.piggyback_ack());
    assert!(tx.next_rto_ms().is_none());
}

#[test]
fn deadlines_drive_acknowledgement_alone() {
    let mut rx = Receiver::new();
    let _ = rx.on_message(1, SEND_GUARANTEED | SEND_SEQUENTIAL, payload(1), 0);
    assert_eq!(rx.next_ack_due_ms(), Some(ACK_DELAY_MS));
    assert!(rx.forced_ack(ACK_DELAY_MS - 1).is_none());
    assert_eq!(rx.forced_ack(ACK_DELAY_MS), Some(1));
    assert!(rx.next_ack_due_ms().is_none());
    let mut lazy = Receiver::new();
    let _ = lazy.on_message(1, SEND_GUARANTEED | SEND_ALLOW_LAZY_ACKNOWLEDGEMENT, payload(1), 0);
    assert!(lazy.next_ack_due_ms().is_none());
}

/// Only the clock drives this run: each message loses its first two transmissions, and every
/// acknowledgement is a forced one.
fn timer_driven(options: u32) {
    let mut link = Link { rng: Lcg(0x0BADC0DE), drop_mod: 0, dup_mod: 4, jitter_ms: 13 };
    let mut tx = Sender::new();
    let mut rx = Receiver::new();
    let mut a2b: Wire = BTreeMap::new();
    let mut b2a: BTreeMap<u64, Vec<u32>> = BTreeMap::new();
    let mut attempts: BTreeMap<u32, u32> = BTreeMap::new();
    let mut delivered: Vec<Vec<u8>> = Vec::new();
    let mut late_retransmits = 0u32;
    let mut late_acks = 0u32;
    let mut sends = 0u32;
    let mut now = 0u64;
    let mut converged = false;
    while now < 120_000 && !converged {
        let mut out: Vec<(u32, Vec<u8>)> = Vec::new();
        if now <= 90 && sends < 12 && now % 7 == 0 {
            let o = tx.send(payload(sends), options, now);
            sends += 1;
            out.push((o.seq, o.payload));
        }
        for r in tx.due(now) {
            if r.gave_up {
                continue;
            }
            if now > 90 {
                late_retransmits += 1;
            }
            out.push((r.seq, r.payload));
        }
        for (seq, pay) in out {
            let a = attempts.entry(seq).or_insert(0);
            *a += 1;
            if *a > 2 {
                link.schedule(&mut a2b, now, seq, pay);
            }
        }
        while let Some((&t, _)) = a2b.first_key_value() {
            if t > now {
                break;
            }
            for (seq, pay) in a2b.remove(&t).unwrap() {
                if let RecvOutcome::Delivered(msgs) = rx.on_message(seq, options, pay, t) {
                    for m in msgs {
                        delivered.push(m.payload);
                    }
                }
            }
        }
        if let Some(ack) = rx.forced_ack(now) {
            if now > 90 {
                late_acks += 1;
            }
            let jitter = link.rng.jitter(13);
            b2a.entry(now + jitter).or_default().push(ack);
        }
        while let Some((&t, _)) = b2a.first_key_value() {
            if t > now {
                break;
            }
            for ack in b2a.remove(&t).unwrap() {
                tx.on_ack(ack);
            }
        }
        converged = sends == 12
            && a2b.is_empty()
            && b2a.is_empty()
            && tx.pending.is_empty()
            && rx.buffered_len() == 0;
        now += 1;
    }
    assert!(converged);
    let mut expected: Vec<Vec<u8>> = (0..12).map(payload).collect();
    if !sequential(options) {
        delivered.sort();
        expected.sort();
    }
    assert_eq!(delivered, expected);
    assert!(late_retransmits > 0);
    assert!(late_acks > 0);
}

#[test]
fn clock_alone_delivers_in_order() {
    timer_driven(SEND_GUARANTEED | SEND_SEQUENTIAL);
}

#[test]
fn clock_alone_delivers_everything() {
    timer_driven(SEND_GUARANTEED);
}

#[test]
fn duplicates_are_dropped_and_acknowledged() {
    let mut rx = Receiver::new();
    let o = SEND_GUARANTEED | SEND_SEQUENTIAL;
    assert!(matches!(rx.on_message(1, o, payload(1), 0), RecvOutcome::Delivered(_)));
    assert!(matches!(rx.on_message(1, o, payload(1), 5), RecvOutcome::DroppedDuplicate));
    assert_eq!(rx.ack_value(), 1);
    assert_eq!(rx.forced_ack(100), Some(1));
    assert!(matches!(rx.on_message(3, o, payload(3), 5), RecvOutcome::Queued { .. }));
    assert_eq!(rx.buffered_len(), 1);
    match rx.on_message(2, o, payload(2), 6) {
        RecvOutcome::Delivered(v) => {
            assert_eq!(v.len(), 2);
            assert_eq!(v[0].payload, payload(2));
            assert_eq!(v[1].payload, payload(3));
        }
        _ => panic!("not delivered"),
    }
}

#[test]
fn sequence_numbers_go_round() {
    assert!(seq_after(1, 0));
    assert!(!seq_after(0, 1));
    assert!(seq_after(0, u32::MAX));
    assert!(seq_le(u32::MAX, 0));
    assert!(seq_le(7, 7));
    assert!(!seq_after(7, 7));
}

#[test]
fn options_are_decoded() {
    assert_eq!(mode_name(mode_index(SEND_GUARANTEED | SEND_SEQUENTIAL)), "guar-seq");
    assert_eq!(mode_name(mode_index(SEND_GUARANTEED)), "guar-nonseq");
    assert_eq!(mode_name(mode_index(SEND_SEQUENTIAL)), "best-seq");
    assert_eq!(mode_name(mode_index(0)), "best-nonseq");
    assert_eq!(
        decode_options(0x13),
        "0x00000013 [GuaranteedDelivery(0x1)|SequentialDelivery(0x2)|AllowLazyAcknowledgement(0x10)]"
    );
    assert_eq!(
        decode_options(0),
        "0x00000000 [BestEffortDelivery(0x0)|NonsequentialDelivery(0x0)|RequireTimelyAcknowledgement(0x0 default; ignored unless 0x1 is set)]"
    );
}

#[test]
fn numbers_leave_out_zero() {
    let o = SEND_GUARANTEED | SEND_SEQUENTIAL;
    let mut tx = Sender::new();
    let mut rx = Receiver::new();
    tx.next_gseq = u32::MAX - 1;
    tx.next_bseq = u32::MAX;
    rx.g_next = u32::MAX - 1;
    let sent: Vec<_> = (0..4).map(|i| tx.send(payload(i), o, 0)).collect();
    let numbers: Vec<u32> = sent.iter().map(|m| m.seq).collect();
    assert_eq!(numbers, [u32::MAX - 1, u32::MAX, 1, 2]);
    assert_eq!(tx.send(payload(9), SEND_SEQUENTIAL, 0).seq, u32::MAX);
    assert_eq!(tx.send(payload(9), SEND_SEQUENTIAL, 0).seq, 1);
    assert_eq!(tx.send(payload(9), 0, 0).seq, 0);
    // The stream goes on behind the turn, in order, whatever arrives first.
    let mut out = Vec::new();
    for i in [2usize, 1, 3, 0, 2] {
        if let RecvOutcome::Delivered(v) = rx.on_message(sent[i].seq, o, sent[i].payload.clone(), 0) {
            out.extend(v.into_iter().map(|m| m.payload));
        }
    }
    assert_eq!(out, (0..4).map(payload).collect::<Vec<_>>());
    assert_eq!(rx.buffered_len(), 0);
    assert_eq!(rx.ack_value(), 2);
    assert_eq!(tx.on_ack(rx.ack_value()).len(), 4);
    assert!(tx.pending.is_empty());
}

#[test]
fn acknowledgement_at_the_turn_covers_what_is_before_it() {
    let mut tx = Sender::new();
    let mut rx = Receiver::new();
    tx.next_gseq = u32::MAX;
    rx.g_next = u32::MAX;
    let a = tx.send(payload(1), SEND_GUARANTEED, 0);
    let b = tx.send(payload(2), SEND_GUARANTEED, 0);
    assert_eq!((a.seq, b.seq), (u32::MAX, 1));
    assert!(matches!(rx.on_message(a.seq, SEND_GUARANTEED, a.payload, 0), RecvOutcome::Delivered(_)));
    assert_eq!(rx.g_next, 1);
    assert_eq!(tx.on_ack(rx.ack_value()), [(u32::MAX, SEND_GUARANTEED)]);
    assert_eq!(tx.pending.len(), 1);
}

#[test]
fn empty_guaranteed_message_arrives() {
    let o = SEND_GUARANTEED | SEND_SEQUENTIAL;
    let mut rx = Receiver::new();
    match rx.on_message(1, o, vec![], 0) {
        RecvOutcome::Delivered(v) => {
            assert_eq!(v.len(), 1);
            assert!(v[0].payload.is_empty());
            assert_eq!(v[0].options, o);
        }
        _ => panic!("not delivered"),
    }
    assert_eq!(rx.ack_value(), 1);
    // One that waits is handed over too, and a nonsequential one only once.
    assert!(matches!(rx.on_message(3, o, vec![], 0), RecvOutcome::Queued { .. }));
    assert!(matches!(rx.on_message(4, SEND_GUARANTEED, payload(4), 0), RecvOutcome::Delivered(_)));
    match rx.on_message(2, o, payload(2), 0) {
        RecvOutcome::Delivered(v) => {
            let got: Vec<Vec<u8>> = v.into_iter().map(|m| m.payload).collect();
            assert_eq!(got, [payload(2), vec![]]);
        }
        _ => panic!("not delivered"),
    }
    assert_eq!(rx.ack_value(), 4);
    assert_eq!(rx.buffered_len(), 0);
}

#[test]
fn acknowledgement_is_what_has_arrived_without_a_gap() {
    let mut rx = Receiver::new();
    let o = SEND_GUARANTEED | SEND_SEQUENTIAL;
    let mut acks = Vec::new();
    for (seq, options) in
        [(2, o), (2, SEND_SEQUENTIAL), (4, SEND_GUARANTEED), (1, SEND_GUARANTEED), (9, 0), (3, o), (1, o)]
    {
        rx.on_message(seq, options, payload(seq), 0);
        acks.push(rx.ack_value());
    }
    assert_eq!(acks, [0, 0, 0, 2, 2, 4, 4]);
}
