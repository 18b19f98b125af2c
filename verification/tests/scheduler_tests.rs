use wvw_overview::data::APIEndpoint;
use wvw_overview::scheduler::{ApiQueue, Priority};

fn ep(n: u32) -> APIEndpoint {
    APIEndpoint::Guild(format!("guild-{n}"))
}

#[test]
fn priority_values_are_ordered() {
    assert!(Priority::High.value() > Priority::Normal.value());
    assert!(Priority::Normal.value() > Priority::Low.value());
    assert_eq!(Priority::High.value(), 3);
    assert_eq!(Priority::Normal.value(), 2);
    assert_eq!(Priority::Low.value(), 1);
}

#[test]
fn higher_priority_dequeues_first() {
    // Every High call enqueued before any dispatch leaves before any Normal
    // call, and every Normal before any Low.
    let mut q = ApiQueue::new(200);
    q.enqueue(ep(1), Priority::Low);
    q.enqueue(ep(2), Priority::High);
    q.enqueue(ep(3), Priority::Normal);
    q.enqueue(ep(4), Priority::High);
    q.enqueue(ep(5), Priority::Low);
    let order = q.drain();
    let values: Vec<u8> = order.iter().map(|c| c.priority.value()).collect();
    assert_eq!(values, vec![3, 3, 2, 1, 1]);
}

#[test]
fn fifo_within_equal_priority() {
    // Within one priority band, dequeue order equals enqueue order.
    let mut q = ApiQueue::new(200);
    let t1 = q.enqueue(ep(1), Priority::Normal).unwrap();
    let t2 = q.enqueue(ep(2), Priority::Normal).unwrap();
    let t3 = q.enqueue(ep(3), Priority::Normal).unwrap();
    assert!(t1 < t2 && t2 < t3);
    let order = q.drain();
    let stamps: Vec<u64> = order.iter().map(|c| c.seq).collect();
    assert_eq!(stamps, vec![t1, t2, t3]);
}

#[test]
fn fifo_preserved_across_interleaved_priorities() {
    let mut q = ApiQueue::new(200);
    let a = q.enqueue(ep(1), Priority::Low).unwrap();
    let b = q.enqueue(ep(2), Priority::High).unwrap();
    let c = q.enqueue(ep(3), Priority::Low).unwrap();
    let d = q.enqueue(ep(4), Priority::High).unwrap();
    let order = q.drain();
    let stamps: Vec<u64> = order.iter().map(|c| c.seq).collect();
    assert_eq!(stamps, vec![b, d, a, c]);
}

#[test]
fn tick_respects_the_configured_delay() {
    // No two dispatches happen closer together than the delay.
    let mut q = ApiQueue::new(200);
    q.enqueue(ep(1), Priority::High);
    q.enqueue(ep(2), Priority::High);
    q.enqueue(ep(3), Priority::High);
    assert!(q.tick(1000).is_some());
    assert!(q.tick(1100).is_none());
    assert!(q.tick(1199).is_none());
    assert!(q.tick(1200).is_some());
    assert!(q.tick(1399).is_none());
    assert!(q.tick(1400).is_some());
    assert!(q.tick(1600).is_none());
}

#[test]
fn tick_on_empty_backlog_returns_nothing() {
    let mut q = ApiQueue::new(200);
    assert!(q.tick(1000).is_none());
    q.enqueue(ep(1), Priority::Low);
    assert!(q.tick(2000).is_some());
    assert!(q.tick(3000).is_none());
}

#[test]
fn clear_empties_the_backlog() {
    let mut q = ApiQueue::new(200);
    q.enqueue(ep(1), Priority::High);
    q.enqueue(ep(2), Priority::Low);
    assert_eq!(q.pending_len(), 2);
    q.clear();
    assert_eq!(q.pending_len(), 0);
    assert!(q.tick(500).is_none());
}

#[test]
fn tick_hands_out_the_scheduled_endpoint() {
    let mut q = ApiQueue::new(10);
    q.enqueue(APIEndpoint::AllWvWGuilds, Priority::High);
    let call = q.tick(50).unwrap();
    assert_eq!(call.endpoint.url(), "https://api.guildwars2.com/v2/wvw/guilds/eu");
}
