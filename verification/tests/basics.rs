//! Addresses, orders, packets, ports, the clock and randomness.

use std::collections::HashSet;

use yipd::addr::{is_addr, SockAddr};
use yipd::clock::{millis_or_zero, now_secs, now_wall_clock_ms, secs_or_zero};
use yipd::entropy::{
    draw_from, jitter_drawn, jitter_from_draw, pad_drawn, pad_from_draw, random_draw, random_pad,
    NoEntropy,
};
use yipd::order::{copied, is_key, less, same, same_key};
use yipd::peer_manager::obf::{
    junk_body_len, junk_burst_len, obf_pad_max, Decoys, JUNK_MAX_LEN, JUNK_MIN_LEN,
};
use yipd::port::{bind_step, fallback_addr, BindOutcome, BindStep};
use yipd::wire::{
    frame_init_payload, ipv6_dst, parse_init_payload, reassemble, tag_hint, WireCodes,
};

const CODES: WireCodes = WireCodes {
    init: 0,
    resp: 1,
    data: 2,
    control: 3,
    gossip: 4,
    junk: 0xF0,
    rdv: 0xF1,
    min_envelope: 15,
};

#[test]
fn the_unspecified_address_and_a_changed_port() {
    assert_eq!(SockAddr::unspecified(), SockAddr::V4 { ip: 0, port: 0 });
    let a = SockAddr::V6 { ip: 5, port: 443, flowinfo: 1, scope_id: 2 };
    assert_eq!(
        a.with_port(8443),
        SockAddr::V6 { ip: 5, port: 8443, flowinfo: 0, scope_id: 0 }
    );
    assert!(is_addr(Some(a), a));
    assert!(!is_addr(Some(a), a.with_port(1)));
    assert!(!is_addr(None, a));
}

#[test]
fn byte_strings_are_ordered_as_words_are() {
    assert!(less(&[1, 2], &[1, 3]));
    assert!(less(&[1], &[1, 0]));
    assert!(!less(&[2], &[1, 9]));
    assert!(!less(&[1, 2], &[1, 2]));
    assert!(same(&[1, 2], &[1, 2]));
    assert!(!same(&[1, 2], &[1, 2, 3]));
    assert!(same_key(&[4u8; 32], &[4u8; 32]));
    assert!(is_key(&Some([4u8; 32]), &[4u8; 32]));
    assert!(!is_key(&None, &[4u8; 32]));
    assert_eq!(copied(&[7, 8]), vec![7, 8]);
}

#[test]
fn the_destination_of_a_packet_is_read_from_its_header() {
    let mut p = vec![0u8; 40];
    p[0] = 0x60;
    p[24] = 0xfd;
    p[39] = 9;
    assert_eq!(ipv6_dst(&p), Some((0xfdu128 << 120) | 9));
    assert_eq!(ipv6_dst(&p[..39]), None, "shorter than a header");
    p[0] = 0x45;
    assert_eq!(ipv6_dst(&p), None, "not version six");
    assert_eq!(ipv6_dst(&[]), None);
}

#[test]
fn the_tag_of_a_datagram_follows_its_type() {
    let mut dg = vec![2u8];
    dg.extend_from_slice(&0x0102_0304_0506_0708u64.to_be_bytes());
    assert_eq!(tag_hint(&dg), Some(0x0102_0304_0506_0708));
    assert_eq!(tag_hint(&dg[..8]), None);
}

#[test]
fn a_datagram_is_its_type_and_its_body() {
    assert_eq!(reassemble(7, &[1, 2]), vec![7, 1, 2]);
    assert_eq!(reassemble(7, &[]), vec![7]);
}

#[test]
fn an_init_payload_is_a_label_and_a_certificate() {
    let label = [3u8; 12];
    let payload = frame_init_payload(&label, b"cert");
    assert_eq!(payload.len(), 16);
    assert_eq!(parse_init_payload(&payload), Some((label, b"cert".to_vec())));
    assert_eq!(parse_init_payload(&payload[..12]), Some((label, Vec::new())));
    assert_eq!(parse_init_payload(&payload[..11]), None);
}

#[test]
fn a_denied_port_falls_back_only_where_it_was_not_asked_for() {
    let a = SockAddr::V4 { ip: 0, port: 443 };
    let f = SockAddr::V4 { ip: 0, port: 8443 };
    assert_eq!(fallback_addr(a), f);
    assert_eq!(bind_step(a, true, BindOutcome::Bound), BindStep::Use);
    assert_eq!(bind_step(a, true, BindOutcome::PermissionDenied), BindStep::Fallback(f));
    assert_eq!(bind_step(a, false, BindOutcome::PermissionDenied), BindStep::Fail);
    assert_eq!(bind_step(a, true, BindOutcome::Failed), BindStep::Fail);
}

#[test]
fn the_clock_reads_seconds_and_milliseconds() {
    assert_eq!(secs_or_zero(Some((7, 999_999_999))), 7);
    assert_eq!(secs_or_zero(None), 0);
    assert_eq!(millis_or_zero(Some((7, 123_999_999))), 7_123);
    assert_eq!(millis_or_zero(None), 0);
    assert_eq!(millis_or_zero(Some((u64::MAX, 0))), u64::MAX);
    assert!(now_secs() > 1_600_000_000);
    let (a, b) = (now_wall_clock_ms(), now_secs());
    assert!(a / 1_000 <= b && b <= a / 1_000 + 5);
}

#[test]
fn draws_differ_and_keep_their_bounds() {
    let seen: HashSet<u64> = (0..8).map(|_| random_draw().unwrap()).collect();
    assert!(seen.len() > 1);
    for _ in 0..64 {
        assert!(random_pad(3).unwrap() <= 3);
    }
    assert_eq!(random_pad(0), Ok(0));
    assert_eq!(pad_from_draw(64, 64), 64);
    assert_eq!(pad_from_draw(64, 65), 0);
    assert_eq!(jitter_from_draw(1_000, 0), 750);
    assert_eq!(jitter_from_draw(1_000, 500), 1_250);
    assert_eq!(jitter_from_draw(1_000, 501), 750);
    assert_eq!(jitter_from_draw(0, 99), 0);
}

#[test]
fn a_failed_draw_selects_nothing() {
    assert_eq!(draw_from(Some(9)), Ok(9));
    assert_eq!(draw_from(None), Err(NoEntropy));
    assert_eq!(pad_drawn(64, Ok(66)), Ok(1));
    assert_eq!(pad_drawn(64, Err(NoEntropy)), Err(NoEntropy));
    assert_eq!(jitter_drawn(1_000, Ok(502)), Ok(751));
    assert_eq!(jitter_drawn(1_000, Err(NoEntropy)), Err(NoEntropy));
}

#[test]
fn decoys_keep_their_bounds() {
    assert_eq!(junk_burst_len(0), 3);
    assert_eq!(junk_burst_len(9), 12);
    assert_eq!(junk_burst_len(10), 3);
    assert_eq!(junk_body_len(0), JUNK_MIN_LEN);
    assert_eq!(junk_body_len(960), JUNK_MAX_LEN);
    assert_eq!(junk_body_len(961), JUNK_MIN_LEN);
    let body = vec![1u8; JUNK_MIN_LEN];
    assert!(Decoys::new(vec![body.clone(); 2]).is_none(), "too few");
    assert!(Decoys::new(vec![body.clone(); 13]).is_none(), "too many");
    assert!(Decoys::new(vec![body.clone(), body.clone(), vec![0; 63]]).is_none(), "too short");
    assert!(Decoys::new(vec![body.clone(), body.clone(), vec![0; 1_025]]).is_none(), "too long");
    let d = Decoys::new(vec![body.clone(); 3]).unwrap();
    assert_eq!(d.len(), 3);
    assert_eq!(d.body(2), body);
}

#[test]
fn padding_fills_a_handshake_and_only_blurs_data() {
    // A handshake is padded up to the budget, less its envelope.
    let init = obf_pad_max(&CODES, CODES.init, 100);
    assert_eq!(init, 1_200 - CODES.min_envelope - 99);
    assert_eq!(obf_pad_max(&CODES, CODES.init, 5_000), 0);
    assert_eq!(obf_pad_max(&CODES, CODES.data, 100), 64);
}
