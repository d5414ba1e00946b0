use petrichor::events::FromClient;
use petrichor::inbox::{EventQueue, OrderedChannel, OrderedLane, OrderedOutbox, Sequenced};

#[test]
fn a_queue_is_drained_when_read() {
    let mut q: EventQueue<u32> = EventQueue::new();
    assert_eq!(q.len(), 0);
    q.push(1, 10);
    q.push(2, 20);
    q.push(1, 11);
    assert_eq!(q.len(), 3);
    let got = q.recv();
    assert_eq!(got.len(), 3);
    assert_eq!((got[0].client_id, got[0].event), (1, 10));
    assert_eq!((got[1].client_id, got[1].event), (2, 20));
    assert_eq!((got[2].client_id, got[2].event), (1, 11));
    assert_eq!(q.len(), 0);
    assert!(q.recv().is_empty());
    q.push(3, 30);
    let again: Vec<FromClient<u32>> = q.recv();
    assert_eq!(again.len(), 1);
}

fn packet(seq: u64) -> Sequenced<String> {
    Sequenced { seq, event: format!("e{}", seq) }
}

#[test]
fn ordered_events_leave_in_the_order_sent() {
    let mut lane: OrderedLane<String> = OrderedLane::new();
    let mut seen: Vec<String> = Vec::new();
    // packets 0..6 arrive shuffled, some twice, one late
    for seq in [2u64, 0, 0, 3, 5, 1, 2, 1, 4, 5] {
        seen.extend(lane.accept(packet(seq)));
        let expected: Vec<String> = (0..seen.len() as u64).map(|i| format!("e{}", i)).collect();
        assert_eq!(seen, expected);
        assert_eq!(lane.next(), seen.len() as u64);
    }
    assert_eq!(seen.len(), 6);
}

#[test]
fn a_lost_packet_holds_the_later_ones_back_until_it_is_sent_again() {
    let mut lane: OrderedLane<String> = OrderedLane::new();
    assert_eq!(lane.accept(packet(0)), vec![String::from("e0")]);
    assert!(lane.accept(packet(2)).is_empty());
    assert!(lane.accept(packet(3)).is_empty());
    assert!(lane.accept(packet(3)).is_empty());
    assert_eq!(lane.next(), 1);
    assert_eq!(
        lane.accept(packet(1)),
        vec![String::from("e1"), String::from("e2"), String::from("e3")]
    );
    assert!(lane.accept(packet(1)).is_empty());
    assert!(lane.accept(packet(0)).is_empty());
    assert_eq!(lane.next(), 4);
}

#[test]
fn the_last_place_is_never_used() {
    let mut lane: OrderedLane<u8> = OrderedLane::new();
    assert!(lane.accept(Sequenced { seq: u64::MAX, event: 1 }).is_empty());
    assert!(lane.accept(Sequenced { seq: u64::MAX - 1, event: 2 }).is_empty());
    assert_eq!(lane.next(), 0);
    assert_eq!(lane.accept(Sequenced { seq: 0, event: 3 }), vec![3]);
}

#[test]
fn unordered_events_may_be_dropped_or_swapped() {
    // An unordered channel hands over whatever arrives, as it arrives.
    let sent = [1u32, 2, 3, 4];
    for arrivals in [vec![1u32, 2, 3, 4], vec![2, 1, 4], vec![], vec![4, 3, 2, 1]] {
        let mut q: EventQueue<u32> = EventQueue::new();
        for a in &arrivals {
            q.push(9, *a);
        }
        let got: Vec<u32> = q.recv().into_iter().map(|e| e.event).collect();
        assert_eq!(got, arrivals);
        assert!(got.iter().all(|e| sent.contains(e)));
    }
}

#[test]
fn a_channel_keeps_a_lane_for_each_sender() {
    let mut channel: OrderedChannel<String> = OrderedChannel::new();
    channel.deliver(7, packet(1));
    channel.deliver(8, packet(0));
    channel.deliver(7, packet(2));
    assert_eq!(channel.released_of(7), 0);
    assert_eq!(channel.released_of(8), 1);
    assert_eq!(channel.released_of(9), 0);
    let got = channel.recv();
    assert_eq!(got.len(), 1);
    assert_eq!((got[0].client_id, got[0].event.as_str()), (8, "e0"));
    channel.deliver(7, packet(0));
    channel.deliver(8, packet(0));
    channel.deliver(8, packet(1));
    let got: Vec<(u64, String)> = channel.recv().into_iter().map(|e| (e.client_id, e.event)).collect();
    assert_eq!(
        got,
        vec![
            (7, String::from("e0")),
            (7, String::from("e1")),
            (7, String::from("e2")),
            (8, String::from("e1")),
        ]
    );
    assert!(channel.recv().is_empty());
    assert_eq!(channel.released_of(7), 3);
}

#[test]
fn a_sender_that_left_is_forgotten() {
    let mut channel: OrderedChannel<u8> = OrderedChannel::new();
    channel.deliver(7, Sequenced { seq: 0, event: 1 });
    channel.deliver(7, Sequenced { seq: 2, event: 3 });
    channel.forget(7);
    channel.forget(8);
    assert_eq!(channel.released_of(7), 0);
    // what was released before stays to be read; what was held is gone
    channel.deliver(7, Sequenced { seq: 1, event: 9 });
    channel.deliver(7, Sequenced { seq: 0, event: 8 });
    let got: Vec<u8> = channel.recv().into_iter().map(|e| e.event).collect();
    assert_eq!(got, vec![1, 8, 9]);
}

#[test]
fn the_outbox_keeps_what_is_not_acknowledged() {
    let mut outbox: OrderedOutbox<&'static str> = OrderedOutbox::new();
    assert_eq!(outbox.next(), 0);
    assert!(outbox.pending().is_empty());
    assert_eq!(outbox.send("a"), Ok(0));
    assert_eq!(outbox.send("b"), Ok(1));
    assert_eq!(outbox.send("c"), Ok(2));
    assert_eq!(outbox.next(), 3);
    let seqs = |o: &OrderedOutbox<&'static str>| -> Vec<(u64, &'static str)> {
        o.pending().iter().map(|p| (p.seq, p.event)).collect()
    };
    assert_eq!(seqs(&outbox), vec![(0, "a"), (1, "b"), (2, "c")]);
    outbox.ack(0);
    assert_eq!(outbox.pending().len(), 3);
    outbox.ack(2);
    assert_eq!(seqs(&outbox), vec![(2, "c")]);
    outbox.ack(1);
    assert_eq!(seqs(&outbox), vec![(2, "c")]);
    assert_eq!(outbox.send("d"), Ok(3));
    outbox.ack(100);
    assert!(outbox.pending().is_empty());
    assert_eq!(outbox.next(), 4);
    outbox.ack(2);
    assert_eq!(outbox.send("e"), Ok(4));
    assert_eq!(seqs(&outbox), vec![(4, "e")]);
}

#[test]
fn ordered_events_arrive_in_order_over_a_lossy_link() {
    // a link that loses two packets of three and hands the rest over in reverse
    let mut outbox: OrderedOutbox<u32> = OrderedOutbox::new();
    let mut channel: OrderedChannel<u32> = OrderedChannel::new();
    let mut seen: Vec<u32> = Vec::new();
    let mut round = 0u32;
    for batch in 0..10u32 {
        for i in 0..5 {
            outbox.send(batch * 5 + i).unwrap();
        }
        for _ in 0..4 {
            let mut arriving: Vec<Sequenced<u32>> = Vec::new();
            for (n, p) in outbox.pending().iter().enumerate() {
                if (n as u32 + round) % 3 == 0 {
                    arriving.push(Sequenced { seq: p.seq, event: p.event });
                }
            }
            round += 1;
            for p in arriving.into_iter().rev() {
                channel.deliver(1, p);
            }
            seen.extend(channel.recv().into_iter().map(|e| e.event));
            let expected: Vec<u32> = (0..seen.len() as u32).collect();
            assert_eq!(seen, expected);
            outbox.ack(channel.released_of(1));
        }
    }
    // the link heals: what is pending is sent again, and everything arrives
    for p in outbox.pending().iter() {
        channel.deliver(1, Sequenced { seq: p.seq, event: p.event });
    }
    seen.extend(channel.recv().into_iter().map(|e| e.event));
    assert_eq!(seen, (0..50).collect::<Vec<u32>>());
    outbox.ack(channel.released_of(1));
    assert!(outbox.pending().is_empty());
}

#[test]
fn the_places_of_an_outbox_run_out() {
    let mut outbox: OrderedOutbox<u8> = OrderedOutbox::starting_at(u64::MAX - 1);
    assert_eq!(outbox.send(1), Ok(u64::MAX - 1));
    assert_eq!(outbox.send(2), Err(2));
    assert_eq!(outbox.next(), u64::MAX);
    assert_eq!(outbox.pending().len(), 1);
    outbox.ack(u64::MAX);
    assert!(outbox.pending().is_empty());
    assert_eq!(outbox.send(3), Err(3));
}
