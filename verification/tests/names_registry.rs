use tracy::codec::copy_range;
use tracy::codec::Command;
use tracy::engine::{CommandOutcome, Engine, EngineConfig};
use tracy::names;
use tracy::registry::bytes_eq;

fn mk_engine() -> Engine {
    Engine::new(EngineConfig {
        hostname: b"h".to_vec(),
        process_name: b"p".to_vec(),
        flush_interval_ms: 1000,
        announce_interval_ms: 0,
        announce_configured: false,
        port: 61455,
    })
}

#[test]
fn normalize_lowercases_and_truncates() {
    assert_eq!(names::normalize_name(&b"AbC".to_vec()), Some(b"abc".to_vec()));
    assert_eq!(names::normalize_name(&b"".to_vec()), Some(b"".to_vec()));
    let long = b"ABCDEFGHIJKLMNOPQRSTUVWXYZ0123456789".to_vec();
    assert_eq!(
        names::normalize_name(&long),
        Some(b"abcdefghijklmnopqrstuvwxyz012345".to_vec())
    );
    assert_eq!(names::normalize_name(&vec![0x80]), None);
    assert_eq!(names::normalize_name(&vec![b'a', 0xC3, 0xA9]), None);
}

#[test]
fn utf8_checker_accepts_well_formed() {
    assert!(names::check_valid_utf8(&b"abc".to_vec()));
    assert!(names::check_valid_utf8(&Vec::new()));
    assert!(names::check_valid_utf8(&vec![0xC3, 0xA9]));
    assert!(names::check_valid_utf8(&vec![0xE2, 0x82, 0xAC]));
    assert!(names::check_valid_utf8(&vec![0xF0, 0x9F, 0x98, 0x80]));
}

#[test]
fn utf8_checker_rejects_malformed() {
    assert!(!names::check_valid_utf8(&vec![0xFF]));
    assert!(!names::check_valid_utf8(&vec![0x80]));
    assert!(!names::check_valid_utf8(&vec![0xC3]));
    // Overlong encoding.
    assert!(!names::check_valid_utf8(&vec![0xC0, 0xAF]));
    assert!(!names::check_valid_utf8(&vec![0xE0, 0x80, 0x80]));
    // Surrogate range.
    assert!(!names::check_valid_utf8(&vec![0xED, 0xA0, 0x80]));
    // Beyond U+10FFFF.
    assert!(!names::check_valid_utf8(&vec![0xF4, 0x90, 0x80, 0x80]));
}

#[test]
fn invalid_utf8_wire_name_reads_as_empty() {
    // An empty name is registrable; a wire name with invalid UTF-8 is
    // looked up as the empty string and so toggles it.
    let mut e = mk_engine();
    assert_eq!(e.register(&Vec::new()), 0);
    assert!(e.on_accept());
    let body = vec![0x00, 0x01, 0xFF];
    assert!(matches!(
        e.on_command(Command::TracepointEnableRequest, &body),
        CommandOutcome::Applied
    ));
    assert!(e.is_enabled(&Vec::new()));
}

#[test]
fn invalid_utf8_wire_name_misses_other_names() {
    let mut e = mk_engine();
    assert_eq!(e.register(&b"t".to_vec()), 0);
    assert!(e.on_accept());
    let body = vec![0x00, 0x01, 0xFF];
    assert!(matches!(
        e.on_command(Command::TracepointEnableRequest, &body),
        CommandOutcome::Applied
    ));
    assert!(!e.is_enabled(&b"t".to_vec()));
}

#[test]
fn enable_unknown_name_is_ignored() {
    let mut e = mk_engine();
    assert_eq!(e.register(&b"t".to_vec()), 0);
    assert!(e.on_accept());
    let body = vec![0x00, 0x01, b'u'];
    assert!(matches!(
        e.on_command(Command::TracepointEnableRequest, &body),
        CommandOutcome::Applied
    ));
    assert!(!e.is_enabled(&b"t".to_vec()));
    assert!(!e.is_enabled(&b"u".to_vec()));
    assert!(e.client_connected());
}

#[test]
fn one_request_sets_several_names() {
    let mut e = mk_engine();
    assert_eq!(e.register(&b"a".to_vec()), 0);
    assert_eq!(e.register(&b"b".to_vec()), 0);
    assert_eq!(e.register(&b"c".to_vec()), 0);
    assert!(e.on_accept());
    let body = vec![0x00, 0x01, b'a', 0x00, 0x01, b'c'];
    assert!(matches!(
        e.on_command(Command::TracepointEnableRequest, &body),
        CommandOutcome::Applied
    ));
    assert!(e.is_enabled(&b"a".to_vec()));
    assert!(!e.is_enabled(&b"b".to_vec()));
    assert!(e.is_enabled(&b"c".to_vec()));
    let body_off = vec![0x00, 0x01, b'a'];
    assert!(matches!(
        e.on_command(Command::TracepointDisableRequest, &body_off),
        CommandOutcome::Applied
    ));
    assert!(!e.is_enabled(&b"a".to_vec()));
    assert!(e.is_enabled(&b"c".to_vec()));
}

#[test]
fn disconnect_forces_all_flags_down() {
    let mut e = mk_engine();
    assert_eq!(e.register(&b"a".to_vec()), 0);
    assert_eq!(e.register(&b"b".to_vec()), 0);
    assert!(e.on_accept());
    let body = vec![0x00, 0x01, b'a', 0x00, 0x01, b'b'];
    assert!(matches!(
        e.on_command(Command::TracepointEnableRequest, &body),
        CommandOutcome::Applied
    ));
    assert!(e.is_enabled(&b"a".to_vec()));
    assert!(e.is_enabled(&b"b".to_vec()));
    e.on_disconnect();
    assert!(!e.is_enabled(&b"a".to_vec()));
    assert!(!e.is_enabled(&b"b".to_vec()));
}

#[test]
fn byte_vector_helpers() {
    assert!(bytes_eq(&b"abc".to_vec(), &b"abc".to_vec()));
    assert!(!bytes_eq(&b"abc".to_vec(), &b"abd".to_vec()));
    assert!(!bytes_eq(&b"abc".to_vec(), &b"ab".to_vec()));
    let v = b"hello".to_vec();
    assert_eq!(copy_range(&v, 1, 4), b"ell".to_vec());
    assert_eq!(copy_range(&v, 0, 0), Vec::<u8>::new());
}
