use tracy::codec::{self, Command};

#[test]
fn header_encode_exact_bytes() {
    let h = codec::encode_header(Command::TracepointEnableRequest, 6);
    assert_eq!(h, vec![0x52, 0x75, 0x53, 0x74, 0, 0, 0, 3, 0, 0, 0, 6]);
}

#[test]
fn header_round_trip_list_request() {
    let h = codec::encode_header(Command::TracepointListRequest, 0);
    match codec::parse_header(&h) {
        Some((c, l)) => {
            assert_eq!(c, Command::TracepointListRequest);
            assert_eq!(l, 0);
        },
        None => panic!("valid header rejected"),
    }
}

#[test]
fn header_round_trip_enable_max_len() {
    let h = codec::encode_header(Command::TracepointEnableRequest, 0xFFFF_FFFF);
    match codec::parse_header(&h) {
        Some((c, l)) => {
            assert_eq!(c, Command::TracepointEnableRequest);
            assert_eq!(l, 0xFFFF_FFFF);
        },
        None => panic!("valid header rejected"),
    }
}

#[test]
fn header_round_trip_disable() {
    let h = codec::encode_header(Command::TracepointDisableRequest, 7);
    match codec::parse_header(&h) {
        Some((c, l)) => {
            assert_eq!(c, Command::TracepointDisableRequest);
            assert_eq!(l, 7);
        },
        None => panic!("valid header rejected"),
    }
}

#[test]
fn header_reject_bad_magic() {
    let h = vec![0, 0, 0, 0, 0, 0, 0, 1, 0, 0, 0, 0];
    assert!(codec::parse_header(&h).is_none());
}

#[test]
fn header_reject_nonzero_flags() {
    let h = vec![0x52, 0x75, 0x53, 0x74, 0, 1, 0, 1, 0, 0, 0, 0];
    assert!(codec::parse_header(&h).is_none());
}

#[test]
fn header_reject_agent_only_commands() {
    // The collector may not send a list reply or a trace push.
    let reply = vec![0x52, 0x75, 0x53, 0x74, 0, 0, 0, 2, 0, 0, 0, 4];
    assert!(codec::parse_header(&reply).is_none());
    let push = vec![0x52, 0x75, 0x53, 0x74, 0, 0, 0, 5, 0, 0, 0, 4];
    assert!(codec::parse_header(&push).is_none());
}

#[test]
fn header_reject_unknown_command() {
    let h = vec![0x52, 0x75, 0x53, 0x74, 0, 0, 0, 9, 0, 0, 0, 0];
    assert!(codec::parse_header(&h).is_none());
}

#[test]
fn header_reject_list_request_with_body() {
    let h = vec![0x52, 0x75, 0x53, 0x74, 0, 0, 0, 1, 0, 0, 0, 1];
    assert!(codec::parse_header(&h).is_none());
}

#[test]
fn header_reject_enable_without_body() {
    let h = vec![0x52, 0x75, 0x53, 0x74, 0, 0, 0, 3, 0, 0, 0, 0];
    assert!(codec::parse_header(&h).is_none());
    let h2 = vec![0x52, 0x75, 0x53, 0x74, 0, 0, 0, 4, 0, 0, 0, 0];
    assert!(codec::parse_header(&h2).is_none());
}

#[test]
fn be_encodings_exact() {
    let mut out: Vec<u8> = Vec::new();
    codec::push_u16_be(&mut out, 0x0102);
    assert_eq!(out, vec![0x01, 0x02]);
    let mut out32: Vec<u8> = Vec::new();
    codec::push_u32_be(&mut out32, 0xA1B2_C3D4);
    assert_eq!(out32, vec![0xA1, 0xB2, 0xC3, 0xD4]);
    let mut out64: Vec<u8> = Vec::new();
    codec::push_u64_be(&mut out64, 0x0102_0304_0506_0708);
    assert_eq!(out64, vec![1, 2, 3, 4, 5, 6, 7, 8]);
}

#[test]
fn record_encoding_exact() {
    let mut out: Vec<u8> = Vec::new();
    let name = b"tp".to_vec();
    let payload = vec![0xAB, 0xCD];
    codec::push_record(&mut out, &name, 0x0102_0304_0506_0708, &payload);
    assert_eq!(
        out,
        vec![0, 2, b't', b'p', 1, 2, 3, 4, 5, 6, 7, 8, 0, 2, 0xAB, 0xCD]
    );
}

#[test]
fn frame_length_field_matches_body() {
    let body = vec![1, 2, 3, 4, 5];
    let f = codec::encode_frame(Command::TracepointListReply, &body);
    assert_eq!(f.len(), 17);
    assert_eq!(&f[0..4], &[0x52, 0x75, 0x53, 0x74]);
    assert_eq!(&f[4..6], &[0, 0]);
    assert_eq!(&f[6..8], &[0, 2]);
    assert_eq!(u32::from_be_bytes([f[8], f[9], f[10], f[11]]) as usize, body.len());
    assert_eq!(&f[12..], &body[..]);
}

#[test]
fn name_list_parse_two_names() {
    let body = vec![0, 1, b'a', 0, 2, b'b', b'c'];
    let names = codec::parse_name_list(&body).expect("valid body rejected");
    assert_eq!(names.len(), 2);
    assert_eq!(names[0], b"a".to_vec());
    assert_eq!(names[1], b"bc".to_vec());
}

#[test]
fn name_list_parse_empty_body() {
    let body: Vec<u8> = Vec::new();
    let names = codec::parse_name_list(&body).expect("empty body is a valid tiling");
    assert_eq!(names.len(), 0);
}

#[test]
fn name_list_reject_overlong_name() {
    let mut body = vec![0, 33];
    body.extend_from_slice(&[b'x'; 33]);
    assert!(codec::parse_name_list(&body).is_none());
}

#[test]
fn name_list_reject_short_read() {
    // Entry claims 4 name bytes, only 2 follow.
    let body = vec![0, 4, b'a', b'b'];
    assert!(codec::parse_name_list(&body).is_none());
    // A lone trailing length byte.
    let body2 = vec![0, 1, b'a', 0];
    assert!(codec::parse_name_list(&body2).is_none());
}

#[test]
fn timestamp_nanoseconds_exact() {
    assert_eq!(tracy::timestamp_ns(0, 0), 0);
    assert_eq!(tracy::timestamp_ns(1, 500), 1_000_000_500);
    assert_eq!(tracy::timestamp_ns(1_600_000_000, 999_999_999), 1_600_000_000_999_999_999);
}
