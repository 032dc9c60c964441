use navmap_pathfinder::queue::{Frontier, QueueEntry};
use std::cmp::Ordering;

#[test]
fn queue_prefers_lowest_estimate() {
    let mut queue = Frontier::new();
    queue.push(QueueEntry { coord: (0, 0), cost: 10, estimate: 20, sequence: 1 });
    queue.push(QueueEntry { coord: (1, 0), cost: 5, estimate: 10, sequence: 2 });
    assert_eq!(queue.pop().unwrap().coord, (1, 0));
}

fn entry(estimate: u32, cost: u32, sequence: u64) -> QueueEntry {
    QueueEntry { coord: (0, 0), cost, estimate, sequence }
}

#[test]
fn ties_go_by_cost_then_by_age() {
    let mut queue = Frontier::new();
    queue.push(entry(20, 9, 1));
    queue.push(entry(20, 7, 3));
    queue.push(entry(20, 7, 2));
    queue.push(entry(10, 99, 4));
    let mut order = Vec::new();
    while let Some(e) = queue.pop() {
        order.push(e.sequence);
    }
    assert_eq!(order, vec![4, 2, 3, 1]);
    assert!(queue.pop().is_none());
}

#[test]
fn many_entries_leave_in_order() {
    let mut queue = Frontier::new();
    let mut seed: u64 = 12345;
    for sequence in 0..500u64 {
        seed = seed.wrapping_mul(6364136223846793005).wrapping_add(1442695040888963407);
        queue.push(entry((seed >> 60) as u32, (seed >> 40) as u32 % 4, sequence));
    }
    let mut last = queue.pop().unwrap();
    let mut count = 1;
    while let Some(e) = queue.pop() {
        let before = (last.estimate, last.cost, last.sequence);
        assert!(before < (e.estimate, e.cost, e.sequence));
        last = e;
        count += 1;
    }
    assert_eq!(count, 500);
}

#[test]
fn greater_entries_leave_first() {
    assert_eq!(entry(1, 0, 0).cmp(&entry(2, 0, 0)), Ordering::Greater);
    assert_eq!(entry(2, 0, 0).cmp(&entry(1, 9, 9)), Ordering::Less);
    assert_eq!(entry(1, 1, 0).cmp(&entry(1, 2, 0)), Ordering::Greater);
    assert_eq!(entry(1, 1, 5).cmp(&entry(1, 1, 4)), Ordering::Less);
    assert_eq!(entry(1, 1, 5).cmp(&entry(1, 1, 5)), Ordering::Equal);
    assert!(entry(1, 0, 0) > entry(2, 0, 0));
    assert!(entry(1, 0, 0) == entry(1, 0, 0));
    assert!(entry(1, 0, 0) != entry(1, 0, 1));
}
