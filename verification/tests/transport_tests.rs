use magnetic::Transport;

/// The cache-hit flow: a first action misses the cache, the authoritative
/// snapshot is learned, and the same action from the same state then hits
/// the cache; storing the identical snapshot afterwards asks for no
/// re-render.
#[test]
fn cache_hit_flow() {
    let mut t = Transport::new();
    assert_eq!(t.init(), Vec::<u8>::new());

    let action = b"{\"action\":\"inc\"}";
    t.set_input(action);
    let predicted = t.reduce(action.len() as u32);
    assert_eq!(t.snapshot_len(), 0);
    assert_eq!(predicted, Vec::<u8>::new());

    let snap = b"{\"root\":{\"tag\":\"h1\",\"text\":\"1\"}}";
    t.set_input(snap);
    assert_eq!(t.store(snap.len() as u32), 1);
    assert_eq!(t.init(), snap.to_vec());

    // Same action from the updated state: still a miss (the cache learned
    // the transition from the OLD state hash).
    t.set_input(action);
    let _ = t.reduce(action.len() as u32);
    assert_eq!(t.snapshot_len(), 0);
    t.set_input(snap);
    assert_eq!(t.store(snap.len() as u32), 0);

    // Replay the whole sequence from the same state: now a hit.
    t.set_input(action);
    let hit = t.reduce(action.len() as u32);
    assert_eq!(t.snapshot_len() as usize, snap.len());
    assert_eq!(hit, snap.to_vec());
    t.set_input(snap);
    assert_eq!(t.store(snap.len() as u32), 0);
}

/// Storing a snapshot whose fingerprint equals the current one returns 0;
/// after a 1, the current snapshot holds the stored bytes.
#[test]
fn store_deduplicates() {
    let mut t = Transport::new();
    let a = b"{\"root\":{\"tag\":\"p\"}}";
    t.set_input(a);
    assert_eq!(t.store(a.len() as u32), 1);
    t.set_input(a);
    assert_eq!(t.store(a.len() as u32), 0);
    let b = b"{\"root\":{\"tag\":\"div\"}}";
    t.set_input(b);
    assert_eq!(t.store(b.len() as u32), 1);
    assert_eq!(t.init(), b.to_vec());
}

#[test]
fn store_rejects_empty_and_oversize() {
    let mut t = Transport::new();
    assert_eq!(t.store(0), 0);
    assert_eq!(t.store(20000), 0);
}

#[test]
fn delta_ring_accumulates_and_clears() {
    let mut t = Transport::new();
    let d1 = b"{\"delta\":true,\"k\":\"a\"}";
    let d2 = b"{\"delta\":true,\"k\":\"b\"}";
    t.set_input(d1);
    assert_eq!(t.delta_push(d1.len() as u32), 1);
    t.set_input(d2);
    assert_eq!(t.delta_push(d2.len() as u32), 2);
    assert_eq!(t.delta_count(), 2);
    assert_eq!(t.delta_len(0) as usize, d1.len());
    assert_eq!(t.delta_at(0), d1.to_vec());
    assert_eq!(t.delta_at(1), d2.to_vec());
    assert_eq!(t.delta_len(7), 0);
    t.delta_clear();
    assert_eq!(t.delta_count(), 0);
}

#[test]
fn delta_push_rejects_zero_length() {
    let mut t = Transport::new();
    assert_eq!(t.delta_push(0), 0);
}

#[test]
fn fnv_of_empty_is_the_offset_basis() {
    assert_eq!(magnetic::transport::fnv(b""), 0x811c9dc5);
    assert_eq!(magnetic::transport::make_key(0, 0), 0);
}
