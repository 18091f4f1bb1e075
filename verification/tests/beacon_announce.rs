use tracy::engine::{Engine, EngineConfig};

fn mk_engine(announce_ms: u64) -> Engine {
    Engine::new(EngineConfig {
        hostname: b"myhost".to_vec(),
        process_name: b"proc".to_vec(),
        flush_interval_ms: 1000,
        announce_interval_ms: announce_ms,
        announce_configured: true,
        port: 61455,
    })
}

fn expected_datagram(seq: u64, interval_field: u64) -> Vec<u8> {
    let mut expected = vec![0x52, 0x75, 0x53, 0x74];
    let json = format!(
        "{{ \"sequence_nr\": {},\"server_version\": \"1.1.0\", \"protocoll_version\": \"1.1.0\",\"update_interval_msecs\": {},\"hostname\": \"myhost\", \"process_name\": \"proc\",\"port\": 61455}}",
        seq, interval_field
    );
    expected.extend_from_slice(json.as_bytes());
    expected
}

#[test]
fn announcement_datagram_exact() {
    let mut e = mk_engine(100);
    assert!(e.announce_timer_armed());
    let d = e.on_announce_timer();
    assert_eq!(d, expected_datagram(0, 100));
}

#[test]
fn announcement_sequence_increments() {
    let mut e = mk_engine(100);
    let d0 = e.on_announce_timer();
    let d1 = e.on_announce_timer();
    let d2 = e.on_announce_timer();
    assert_eq!(d0, expected_datagram(0, 100));
    assert_eq!(d1, expected_datagram(1, 100));
    assert_eq!(d2, expected_datagram(2, 100));
    // The timer stays armed between ticks while no collector connects.
    assert!(e.announce_timer_armed());
}

#[test]
fn announcement_interval_field_formula() {
    // whole seconds + leftover milliseconds, as the wire format has it:
    // 2500 ms -> 2 + 500 = 502.
    let mut e = mk_engine(2500);
    let d = e.on_announce_timer();
    assert_eq!(d, expected_datagram(0, 502));
}

#[test]
fn announce_timer_follows_connection() {
    let mut e = mk_engine(100);
    assert!(e.announce_timer_armed());
    assert!(e.on_accept());
    assert!(!e.announce_timer_armed());
    e.on_disconnect();
    assert!(e.announce_timer_armed());
}

#[test]
fn no_announcing_when_not_configured() {
    let mut e = Engine::new(EngineConfig {
        hostname: b"h".to_vec(),
        process_name: b"p".to_vec(),
        flush_interval_ms: 1000,
        announce_interval_ms: 0,
        announce_configured: false,
        port: 61455,
    });
    assert!(!e.announce_timer_armed());
    assert!(e.on_accept());
    e.on_disconnect();
    // Still not configured: never armed.
    assert!(!e.announce_timer_armed());
}

#[test]
fn announce_enabled_rule() {
    assert!(tracy::engine::announce_enabled(100, true, true));
    assert!(!tracy::engine::announce_enabled(0, true, true));
    assert!(!tracy::engine::announce_enabled(100, false, true));
    assert!(!tracy::engine::announce_enabled(100, true, false));
}

#[test]
fn decimal_digits_exact() {
    let mut out: Vec<u8> = Vec::new();
    tracy::beacon::push_dec_u64(&mut out, 0);
    assert_eq!(out, b"0".to_vec());
    let mut out2: Vec<u8> = Vec::new();
    tracy::beacon::push_dec_u64(&mut out2, 1234567890);
    assert_eq!(out2, b"1234567890".to_vec());
    let mut out3: Vec<u8> = Vec::new();
    tracy::beacon::push_dec_u64(&mut out3, u64::MAX);
    assert_eq!(out3, b"18446744073709551615".to_vec());
}

#[test]
fn build_announcement_direct() {
    let d = tracy::beacon::build_announcement(
        7,
        100,
        &b"myhost".to_vec(),
        &b"proc".to_vec(),
        61455,
    );
    assert_eq!(d, expected_datagram(7, 100));
}
