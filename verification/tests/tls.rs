//! Framing of datagrams on a byte stream.

use yipd::tls::{frame_datagram, frame_datagram_within, FrameError, FrameReader, TLS_FRAME_MAX};

#[test]
fn frame_roundtrip_single() {
    let dg = b"hello yip";
    let mut wire = Vec::new();
    frame_datagram(dg, &mut wire).unwrap();
    let mut r = FrameReader::default();
    r.push(&wire);
    assert_eq!(r.next().unwrap().unwrap(), dg);
    assert!(r.next().unwrap().is_none());
}

#[test]
fn frame_reassembles_across_partial_reads() {
    let dg = vec![0xABu8; 1200];
    let mut wire = Vec::new();
    frame_datagram(&dg, &mut wire).unwrap();
    let mut r = FrameReader::default();
    r.push(&wire[..1]);
    assert!(r.next().unwrap().is_none());
    r.push(&wire[1..700]);
    assert!(r.next().unwrap().is_none());
    r.push(&wire[700..]);
    assert_eq!(r.next().unwrap().unwrap(), dg);
}

#[test]
fn frame_two_back_to_back() {
    let (a, b) = (b"aaa".as_slice(), b"bbbb".as_slice());
    let mut wire = Vec::new();
    frame_datagram(a, &mut wire).unwrap();
    frame_datagram(b, &mut wire).unwrap();
    let mut r = FrameReader::default();
    r.push(&wire);
    assert_eq!(r.next().unwrap().unwrap(), a);
    assert_eq!(r.next().unwrap().unwrap(), b);
    assert!(r.next().unwrap().is_none());
}

#[test]
fn frame_oversize_body_errs_on_write() {
    let big = vec![0u8; TLS_FRAME_MAX + 1];
    assert!(frame_datagram(&big, &mut Vec::new()).is_err());
}

#[test]
fn reader_rejects_zero_and_oversize_len() {
    let mut r = FrameReader::default();
    r.push(&[0u8, 0]); // len 0
    assert!(r.next().is_err());
    let mut r2 = FrameReader::default();
    let bad = u16::try_from(TLS_FRAME_MAX).unwrap().wrapping_add(1);
    // Only where the limit is below what two bytes can say is there such a length.
    if usize::from(bad) > TLS_FRAME_MAX && bad != 0 {
        r2.push(&bad.to_be_bytes());
        assert!(r2.next().is_err());
    }
}

#[test]
fn a_lower_limit_binds_both_ends() {
    let mut out = vec![9u8];
    assert_eq!(frame_datagram_within(&[1, 2, 3, 4], 3, &mut out), Err(FrameError::TooLarge));
    assert_eq!(out, vec![9u8], "nothing is written of a datagram that does not fit");
    assert_eq!(frame_datagram_within(&[1, 2, 3], 3, &mut out), Ok(()));
    assert_eq!(out, vec![9u8, 0, 3, 1, 2, 3]);

    let mut r = FrameReader::with_limit(3);
    r.push(&[0, 4, 1, 2, 3, 4]);
    assert_eq!(r.next(), Err(FrameError::BadLength));
}

#[test]
fn an_empty_datagram_is_framed_and_not_read_back() {
    let mut out = Vec::new();
    assert_eq!(frame_datagram(&[], &mut out), Ok(()));
    assert_eq!(out, vec![0u8, 0]);
    let mut r = FrameReader::default();
    r.push(&out);
    assert_eq!(r.next(), Err(FrameError::BadLength));
}

#[test]
fn drain_gives_the_frames_before_a_bad_length() {
    let mut r = FrameReader::with_limit(8);
    r.push(&[0, 1, 7, 0, 2, 8, 9, 0, 0, 5]);
    let (frames, broken) = r.drain();
    assert_eq!(frames, vec![vec![7u8], vec![8, 9]]);
    assert!(broken);

    let mut r = FrameReader::with_limit(8);
    r.push(&[0, 1, 7, 0, 2, 8]);
    let (frames, broken) = r.drain();
    assert_eq!(frames, vec![vec![7u8]]);
    assert!(!broken);
    r.push(&[9]);
    assert_eq!(r.drain(), (vec![vec![8u8, 9]], false));
}

#[test]
fn how_a_stream_is_cut_does_not_matter() {
    let stream = [0u8, 1, 7, 0, 2, 8, 9, 0, 3, 1, 2];
    let mut whole = FrameReader::default();
    whole.push(&stream);
    let expected = whole.drain().0;
    assert_eq!(expected, vec![vec![7u8], vec![8, 9]]);
    for cut in 0..=stream.len() {
        let mut r = FrameReader::default();
        r.push(&stream[..cut]);
        let mut got = r.drain().0;
        r.push(&stream[cut..]);
        got.extend(r.drain().0);
        assert_eq!(got, expected);
    }
}
