use socket_server::pool::{GrowthPolicy, WriterPool, CONNECTIONS_PER_WRITER};

#[test]
fn every_fifth_registration_calls_for_a_writer() {
    assert_eq!(CONNECTIONS_PER_WRITER, 5);
    let mut pool = WriterPool::new(GrowthPolicy::standard());
    assert_eq!(pool.writers(), 0);
    let mut spawned = Vec::new();
    for _ in 0..12 {
        spawned.push(pool.record_connection());
    }
    assert_eq!(
        spawned,
        vec![false, false, false, false, true, false, false, false, false, true, false, false]
    );
    assert_eq!(pool.connections(), 12);
    assert_eq!(pool.writers(), 2);
}

#[test]
fn standard_policy() {
    let policy = GrowthPolicy::standard();
    assert_eq!(
        policy,
        GrowthPolicy { connections_per_writer: 5, min_writers: 0, max_writers: u32::MAX }
    );
    assert!(policy.is_valid());
    assert!(!GrowthPolicy { connections_per_writer: 0, min_writers: 0, max_writers: 1 }.is_valid());
    assert!(!GrowthPolicy { connections_per_writer: 5, min_writers: 2, max_writers: 1 }.is_valid());
}

#[test]
fn pool_starts_at_its_minimum_and_stops_at_its_maximum() {
    let policy = GrowthPolicy { connections_per_writer: 2, min_writers: 1, max_writers: 3 };
    let mut pool = WriterPool::new(policy);
    assert_eq!(pool.writers(), 1);
    let spawned: Vec<bool> = (0..8).map(|_| pool.record_connection()).collect();
    assert_eq!(spawned, vec![false, true, false, true, false, false, false, false]);
    assert_eq!(pool.writers(), 3);
    assert_eq!(pool.connections(), 8);
}

#[test]
fn connection_count_wraps() {
    let mut pool = WriterPool { policy: GrowthPolicy::standard(), connections: u32::MAX, writers: 7 };
    assert!(pool.record_connection());
    assert_eq!(pool.connections(), 0);
    assert_eq!(pool.writers(), 8);
}
