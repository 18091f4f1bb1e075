use tracy::codec::Command;
use tracy::engine::{CommandOutcome, Engine, EngineConfig, HeaderOutcome};

fn mk_engine(announce: bool, flush_ms: u64, announce_ms: u64) -> Engine {
    Engine::new(EngineConfig {
        hostname: b"myhost".to_vec(),
        process_name: b"proc".to_vec(),
        flush_interval_ms: flush_ms,
        announce_interval_ms: announce_ms,
        announce_configured: announce,
        port: 61455,
    })
}

#[test]
fn single_event_frame_exact() {
    let mut e = mk_engine(false, 1000, 0);
    assert_eq!(e.register(&b"tp_a".to_vec()), 0);
    assert!(e.on_accept());
    assert!(e.client_connected());
    let body = vec![0x00, 0x04, b't', b'p', b'_', b'a'];
    assert!(matches!(
        e.on_command(Command::TracepointEnableRequest, &body),
        CommandOutcome::Applied
    ));
    assert!(e.is_enabled(&b"tp_a".to_vec()));
    let ts: u64 = 0x0102_0304_0506_0708;
    let frames = e.submit(&b"tp_a".to_vec(), ts, &vec![0xDE, 0xAD, 0xBE, 0xEF]);
    assert!(frames.is_empty());
    assert!(e.flush_timer_armed());
    let frames = e.on_flush_timer();
    assert!(!e.flush_timer_armed());
    assert_eq!(frames.len(), 1);
    // Body: 2 length bytes + 4 name bytes + 8 timestamp bytes + 2 length
    // bytes + 4 payload bytes = 20 = 0x14.
    let mut expected = vec![0x52, 0x75, 0x53, 0x74, 0, 0, 0, 5, 0, 0, 0, 0x14];
    expected.extend_from_slice(&[0, 4]);
    expected.extend_from_slice(b"tp_a");
    expected.extend_from_slice(&[1, 2, 3, 4, 5, 6, 7, 8]);
    expected.extend_from_slice(&[0, 4, 0xDE, 0xAD, 0xBE, 0xEF]);
    assert_eq!(frames[0], expected);
}

#[test]
fn overflow_driven_flush() {
    let mut e = mk_engine(false, 60_000, 0);
    assert_eq!(e.register(&b"x".to_vec()), 0);
    assert!(e.on_accept());
    let body = vec![0x00, 0x01, b'x'];
    assert!(matches!(
        e.on_command(Command::TracepointEnableRequest, &body),
        CommandOutcome::Applied
    ));
    let data = vec![0x42u8; 50];
    let mut flush_count = 0;
    for i in 0..100u64 {
        let frames = e.submit(&b"x".to_vec(), i, &data);
        for f in &frames {
            assert!(f.len() > 12);
            assert!(f.len() <= 4096);
            assert_eq!(&f[0..4], &[0x52, 0x75, 0x53, 0x74]);
            assert_eq!(&f[4..6], &[0, 0]);
            assert_eq!(&f[6..8], &[0, 5]);
            let body_len = u32::from_be_bytes([f[8], f[9], f[10], f[11]]) as usize;
            assert_eq!(body_len, f.len() - 12);
            assert!(body_len <= 4084);
        }
        if !frames.is_empty() {
            flush_count += 1;
            assert!(!e.flush_timer_armed());
            assert_eq!(e.buffered_count(), 0);
            assert_eq!(e.buffered_bytes(), 0);
        }
    }
    assert!(flush_count >= 1);
}

#[test]
fn disable_discards_later_submissions() {
    let mut e = mk_engine(false, 1000, 0);
    assert_eq!(e.register(&b"t".to_vec()), 0);
    assert!(e.on_accept());
    let enable_body = vec![0x00, 0x01, b't'];
    assert!(matches!(
        e.on_command(Command::TracepointEnableRequest, &enable_body),
        CommandOutcome::Applied
    ));
    let frames = e.submit(&b"t".to_vec(), 7, &vec![1]);
    assert!(frames.is_empty());
    let frames = e.on_flush_timer();
    assert_eq!(frames.len(), 1);
    // One record of 12 + 1 + 1 = 14 body bytes went out.
    assert_eq!(frames[0].len(), 12 + 2 + 1 + 8 + 2 + 1);
    let disable_body = vec![0x00, 0x01, b't'];
    assert!(matches!(
        e.on_command(Command::TracepointDisableRequest, &disable_body),
        CommandOutcome::Applied
    ));
    assert!(!e.is_enabled(&b"t".to_vec()));
    for i in 0..10u64 {
        let frames = e.submit(&b"t".to_vec(), i, &vec![1]);
        assert!(frames.is_empty());
        assert_eq!(e.buffered_count(), 0);
    }
    assert!(!e.flush_timer_armed());
    // The final flush on shutdown has nothing more to send.
    let frames = e.on_terminate();
    assert!(frames.is_empty());
}

#[test]
fn protocol_violation_tears_down() {
    let mut e = mk_engine(true, 1000, 100);
    assert_eq!(e.register(&b"t".to_vec()), 0);
    assert!(e.on_accept());
    assert!(!e.announce_timer_armed());
    let enable_body = vec![0x00, 0x01, b't'];
    assert!(matches!(
        e.on_command(Command::TracepointEnableRequest, &enable_body),
        CommandOutcome::Applied
    ));
    assert!(e.is_enabled(&b"t".to_vec()));
    let bad_header = vec![0u8; 12];
    assert!(matches!(e.on_header(&bad_header), HeaderOutcome::Rejected));
    assert!(!e.client_connected());
    // Teardown forces every flag down and restarts announcing.
    assert!(!e.is_enabled(&b"t".to_vec()));
    assert!(e.announce_timer_armed());
    assert!(!e.flush_timer_armed());
}

#[test]
fn malformed_set_body_tears_down() {
    let mut e = mk_engine(false, 1000, 0);
    assert_eq!(e.register(&b"t".to_vec()), 0);
    assert!(e.on_accept());
    // Entry runs past the end of the body.
    let bad_body = vec![0x00, 0x05, b't'];
    assert!(matches!(
        e.on_command(Command::TracepointEnableRequest, &bad_body),
        CommandOutcome::Rejected
    ));
    assert!(!e.client_connected());
    assert!(!e.is_enabled(&b"t".to_vec()));
}

#[test]
fn valid_header_proceeds() {
    let mut e = mk_engine(false, 1000, 0);
    assert!(e.on_accept());
    let h = tracy::codec::encode_header(Command::TracepointEnableRequest, 3);
    match e.on_header(&h) {
        HeaderOutcome::Proceed(c, l) => {
            assert_eq!(c, Command::TracepointEnableRequest);
            assert_eq!(l, 3);
        },
        HeaderOutcome::Rejected => panic!("valid header rejected"),
    }
    assert!(e.client_connected());
}

#[test]
fn name_normalization_collisions() {
    let mut e = mk_engine(false, 1000, 0);
    assert_eq!(e.register(&b"AB".to_vec()), 0);
    // Differs only in case: collides.
    assert_eq!(e.register(&b"ab".to_vec()), -1);
    assert!(e.on_accept());
    // Enabling the raw spelling "AB" over the wire misses: the registry
    // key is the normalized "ab".
    let body_upper = vec![0x00, 0x02, b'A', b'B'];
    assert!(matches!(
        e.on_command(Command::TracepointEnableRequest, &body_upper),
        CommandOutcome::Applied
    ));
    assert!(!e.is_enabled(&b"ab".to_vec()));
    // Enabling "ab" hits, and the producer-side query normalizes too.
    let body_lower = vec![0x00, 0x02, b'a', b'b'];
    assert!(matches!(
        e.on_command(Command::TracepointEnableRequest, &body_lower),
        CommandOutcome::Applied
    ));
    assert!(e.is_enabled(&b"AB".to_vec()));
}

#[test]
fn truncation_collision_past_32_bytes() {
    let mut e = mk_engine(false, 1000, 0);
    let a = b"ABCDEFGHIJKLMNOPQRSTUVWXYZ012345_tail_one".to_vec();
    let b = b"abcdefghijklmnopqrstuvwxyz012345_other".to_vec();
    assert_eq!(e.register(&a), 0);
    // Same first 32 bytes after lower-casing: collides.
    assert_eq!(e.register(&b), -1);
}

#[test]
fn register_rejects_non_ascii() {
    let mut e = mk_engine(false, 1000, 0);
    assert_eq!(e.register(&vec![0xFF, 0x41]), -1);
    assert_eq!(e.register(&vec![b'o', b'k']), 0);
}

#[test]
fn submit_gates() {
    let mut e = mk_engine(false, 1000, 0);
    assert_eq!(e.register(&b"t".to_vec()), 0);
    // No connection: discarded.
    assert!(e.submit(&b"t".to_vec(), 1, &vec![1]).is_empty());
    assert_eq!(e.buffered_count(), 0);
    assert!(e.on_accept());
    // Not enabled: discarded.
    assert!(e.submit(&b"t".to_vec(), 1, &vec![1]).is_empty());
    assert_eq!(e.buffered_count(), 0);
    let body = vec![0x00, 0x01, b't'];
    assert!(matches!(
        e.on_command(Command::TracepointEnableRequest, &body),
        CommandOutcome::Applied
    ));
    // Empty payload: discarded.
    assert!(e.submit(&b"t".to_vec(), 1, &Vec::new()).is_empty());
    assert_eq!(e.buffered_count(), 0);
    // Oversized payload: discarded.
    assert!(e.submit(&b"t".to_vec(), 1, &vec![0u8; 2049]).is_empty());
    assert_eq!(e.buffered_count(), 0);
    // Unregistered name: discarded.
    assert!(e.submit(&b"u".to_vec(), 1, &vec![1]).is_empty());
    assert_eq!(e.buffered_count(), 0);
    // Largest permitted payload: accepted.
    assert!(e.submit(&b"t".to_vec(), 1, &vec![0u8; 2048]).is_empty());
    assert_eq!(e.buffered_count(), 1);
    assert_eq!(e.buffered_bytes(), 1 + 8 + 2048);
    assert!(e.flush_timer_armed());
}

#[test]
fn list_reply_frame() {
    let mut e = mk_engine(false, 1000, 0);
    assert_eq!(e.register(&b"a".to_vec()), 0);
    assert_eq!(e.register(&b"bc".to_vec()), 0);
    assert!(e.on_accept());
    match e.on_command(Command::TracepointListRequest, &Vec::new()) {
        CommandOutcome::Reply(f) => {
            let mut expected = vec![0x52, 0x75, 0x53, 0x74, 0, 0, 0, 2, 0, 0, 0, 7];
            expected.extend_from_slice(&[0, 1, b'a', 0, 2, b'b', b'c']);
            assert_eq!(f, expected);
        },
        _ => panic!("expected a list reply"),
    }
    assert!(e.client_connected());
}

#[test]
fn terminate_flushes_pending_events() {
    let mut e = mk_engine(false, 1000, 0);
    assert_eq!(e.register(&b"t".to_vec()), 0);
    assert!(e.on_accept());
    let body = vec![0x00, 0x01, b't'];
    assert!(matches!(
        e.on_command(Command::TracepointEnableRequest, &body),
        CommandOutcome::Applied
    ));
    assert!(e.submit(&b"t".to_vec(), 3, &vec![9, 9]).is_empty());
    let frames = e.on_terminate();
    assert_eq!(frames.len(), 1);
    assert_eq!(frames[0].len(), 12 + 2 + 1 + 8 + 2 + 2);
    assert_eq!(e.buffered_count(), 0);
}

#[test]
fn threshold_flush_splits_oversized_window() {
    // Two maximum-size events: each record is 2 + 1 + 8 + 2 + 2048 = 2061
    // body bytes; both together would exceed the 4096-byte window with its
    // header, so the overflow flush must emit two frames of one record
    // each.
    let mut e = mk_engine(false, 60_000, 0);
    assert_eq!(e.register(&b"t".to_vec()), 0);
    assert!(e.on_accept());
    let body = vec![0x00, 0x01, b't'];
    assert!(matches!(
        e.on_command(Command::TracepointEnableRequest, &body),
        CommandOutcome::Applied
    ));
    let data = vec![0x11u8; 2048];
    let frames = e.submit(&b"t".to_vec(), 1, &data);
    assert!(frames.is_empty());
    // Occupancy is 1 + 8 + 2048 = 2057; the second event pushes it to
    // 4114 > 4096 and forces the flush.
    let frames = e.submit(&b"t".to_vec(), 2, &data);
    assert_eq!(frames.len(), 2);
    for f in &frames {
        assert_eq!(f.len(), 12 + 2061);
        assert_eq!(u32::from_be_bytes([f[8], f[9], f[10], f[11]]), 2061);
        // Each body opens with one record: name length 1, name "t".
        assert_eq!(&f[12..15], &[0x00, 0x01, b't']);
    }
    // Submission order is kept across the frame split.
    assert_eq!(frames[0][15..23], [0, 0, 0, 0, 0, 0, 0, 1]);
    assert_eq!(frames[1][15..23], [0, 0, 0, 0, 0, 0, 0, 2]);
    assert_eq!(e.buffered_count(), 0);
    assert!(!e.flush_timer_armed());
}

#[test]
fn accept_while_connected_is_ignored() {
    let mut e = mk_engine(true, 1000, 100);
    assert!(e.on_accept());
    assert!(!e.on_accept());
    assert!(e.client_connected());
    e.on_disconnect();
    assert!(!e.client_connected());
    assert!(e.announce_timer_armed());
    assert!(e.on_accept());
    assert!(!e.announce_timer_armed());
}

#[test]
fn pending_events_survive_disconnect_and_flush_after_reaccept() {
    let mut e = mk_engine(false, 1000, 0);
    assert_eq!(e.register(&b"t".to_vec()), 0);
    assert!(e.on_accept());
    let body = vec![0x00, 0x01, b't'];
    assert!(matches!(
        e.on_command(Command::TracepointEnableRequest, &body),
        CommandOutcome::Applied
    ));
    assert!(e.submit(&b"t".to_vec(), 1, &vec![5]).is_empty());
    assert_eq!(e.buffered_count(), 1);
    e.on_disconnect();
    // The buffer keeps its contents, but the flush timer is stopped.
    assert_eq!(e.buffered_count(), 1);
    assert!(!e.flush_timer_armed());
    // On the next accept the flush timer re-arms for the leftovers.
    assert!(e.on_accept());
    assert!(e.flush_timer_armed());
    let frames = e.on_flush_timer();
    assert_eq!(frames.len(), 1);
}
