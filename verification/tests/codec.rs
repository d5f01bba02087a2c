//! Tests of the wire codec: scanning, parsing, writing, and their laws on
//! concrete messages.

use fixr::fix::FixMsgType;
use fixr::fix::FixStream;
use fixr::fix::FixTagHandler;
use fixr::test_util::TestFixMessage;
use fixr::util;
use fixr::util::FixMessageWriter;

/// Append a checksum field computed over `prefix` and return the whole
/// frame.
fn framed(prefix: &[u8]) -> Vec<u8> {
    let sum: u32 = prefix.iter().map(|&b| b as u32).sum::<u32>() % 256;
    let mut m = prefix.to_vec();
    m.extend_from_slice(b"10=");
    m.extend_from_slice(format!("{:03}", sum).as_bytes());
    m.push(1);
    m
}

#[test]
fn test_message_scope() {
    let mut s = TestFixMessage::new();
    s.fix_message_start(FixMsgType::Logon, false);
    s.tag_value(1, &[3u8, 4u8]);
    s.tag_value(1, &[3u8]);
    s.fix_message_done(Ok(()));
    assert!(s.done);
    assert_eq!(vec![1u32, 1u32], s.tag_ids);
}

#[test]
fn test_fix_util() {
    let arr = b"121=1234\x01";
    let (tag_id, cnt, _) = util::get_tag_id(arr).unwrap().unwrap();
    assert_eq!(121, tag_id);
    assert_eq!(4, cnt); // includes =
    let val = util::get_tag_value(&arr[cnt..]).unwrap();
    let val_i = val.0.iter().fold(0, |acc: i32, &x| acc * 10 + (x as i32 - '0' as i32));
    assert_eq!(1234i32, val_i);
}

#[test]
fn test_fix_message() {
    let arr = b"8=FIX.4.2\x019=1234\x0135=A\x0158=Hello\x0110=230\x01\
8=FIX.4.2\x019=1234\x0135=A\x0158=Hello\x0110=230\x01\
8=FIX.4.2\x019=1234\x0135=A\x0158=Hello\x0110=230\x01\
8=FIX.4.2\x019=1234\x0135=A\x0158=Hello\x0110=230";
    let mut s = TestFixMessage::new();
    let mut len = 0;
    for _ in 0..3 {
        let res = util::parse_fix_message(&arr[len..], &mut s);
        println!("message result: {:?} buf len {:?}", res, &arr[len..].len());
        len += res.unwrap().unwrap();
    }
    let res = util::parse_fix_message(&arr[len..], &mut s);
    println!("message result: {:?} buf len {:?}", res, &arr[len..].len());
    assert_eq!(Ok(None), res);
}

#[test]
fn writer_round_trip_one_field() {
    let mut w = FixMessageWriter::new();
    w.fix_message_start(FixMsgType::Logon, false);
    w.tag_value(58, b"Hello");
    w.fix_message_done(Ok(()));
    let bytes = w.get_bytes().to_vec();
    let mut s = TestFixMessage::new();
    let n = util::parse_fix_message(&bytes, &mut s).unwrap().unwrap();
    assert_eq!(bytes.len(), n);
    assert_eq!(Some(b"A".to_vec()), s.msg_type);
    assert_eq!(vec![58u32], s.tag_ids);
    assert_eq!(&b"Hello".to_vec(), s.tag_values.get(&58).unwrap());
    assert!(s.done && s.last_ok);
}

#[test]
fn round_trip_many_fields() {
    let mut w = FixMessageWriter::new();
    w.fix_message_start(FixMsgType::Unknown(b"TT".to_vec()), true);
    w.tag_value(5, b"abc");
    w.tag_value(112, b"");
    w.tag_value(58, b"x=y");
    w.fix_message_done(Ok(()));
    let bytes = w.get_bytes().to_vec();
    let mut s = TestFixMessage::new();
    let n = util::parse_fix_message(&bytes, &mut s).unwrap().unwrap();
    assert_eq!(bytes.len(), n);
    assert_eq!(Some(b"TT".to_vec()), s.msg_type);
    assert_eq!(vec![5u32, 112, 58], s.tag_ids);
    assert_eq!(&b"abc".to_vec(), s.tag_values.get(&5).unwrap());
    assert_eq!(&b"".to_vec(), s.tag_values.get(&112).unwrap());
    assert_eq!(&b"x=y".to_vec(), s.tag_values.get(&58).unwrap());
    assert!(s.done && s.last_ok);
}

#[test]
fn written_checksum_covers_all_but_trailer() {
    let mut w = FixMessageWriter::new();
    w.fix_message_start(FixMsgType::Heartbeat, false);
    w.tag_value(112, b"ping");
    w.fix_message_done(Ok(()));
    let bytes = w.get_bytes().to_vec();
    let covered = &bytes[..bytes.len() - 7];
    let sum: u32 = covered.iter().map(|&b| b as u32).sum::<u32>() % 256;
    let trailer = &bytes[bytes.len() - 7..];
    assert_eq!(b"10=", &trailer[..3]);
    assert_eq!(format!("{:03}", sum).as_bytes(), &trailer[3..6]);
    assert_eq!(1u8, trailer[6]);
}

#[test]
fn written_body_length_counts_body_bytes() {
    let mut w = FixMessageWriter::new();
    w.fix_message_start(FixMsgType::Logon, false);
    w.tag_value(58, b"Hello");
    w.fix_message_done(Ok(()));
    let bytes = w.get_bytes().to_vec();
    // Header: "8=FIX.4.2|9=NNN|"; find the value of tag 9.
    let (id8, l8, _) = util::get_tag_id(&bytes).unwrap().unwrap();
    assert_eq!(8, id8);
    let (v8, _) = util::get_tag_value(&bytes[l8..]).unwrap();
    assert_eq!(b"FIX.4.2", v8);
    let h9 = l8 + v8.len() + 1;
    let (id9, l9, _) = util::get_tag_id(&bytes[h9..]).unwrap().unwrap();
    assert_eq!(9, id9);
    let (v9, _) = util::get_tag_value(&bytes[h9 + l9..]).unwrap();
    let body_start = h9 + l9 + v9.len() + 1;
    let body_len: usize = v9.iter().fold(0, |acc, &b| acc * 10 + (b - b'0') as usize);
    // "35=A|58=Hello|" is 14 bytes, zero-padded to three digits.
    assert_eq!(b"014", v9);
    assert_eq!(bytes.len() - 7 - body_start, body_len);
}

#[test]
fn parser_incomplete_prefix_consumes_nothing() {
    let m = framed(b"8=FIX.4.2\x019=014\x0135=TT\x0158=Hello\x01");
    for cut in 0..m.len() {
        let mut s = TestFixMessage::new();
        let res = util::parse_fix_message(&m[..cut], &mut s);
        assert_eq!(Ok(None), res);
        assert_eq!(None, s.msg_type);
        assert!(!s.done);
    }
    let mut s = TestFixMessage::new();
    assert_eq!(Ok(Some(m.len())), util::parse_fix_message(&m, &mut s));
    assert_eq!(Some(b"TT".to_vec()), s.msg_type);
}

#[test]
fn misplaced_header_tag_is_error() {
    let m = framed(b"9=014\x018=FIX.4.2\x0135=TT\x0158=Hello\x01");
    let mut s = TestFixMessage::new();
    assert!(util::parse_fix_message(&m, &mut s).is_err());
    assert_eq!(None, s.msg_type);
}

#[test]
fn non_digit_tag_is_error() {
    let m = b"8a=FIX.4.2\x019=014\x0135=TT\x0110=000\x01";
    let mut s = TestFixMessage::new();
    assert!(util::parse_fix_message(m, &mut s).is_err());
}

#[test]
fn oversized_tag_is_error() {
    let m = b"99999999999=x\x019=000\x0135=TT\x0110=000\x01";
    let mut s = TestFixMessage::new();
    assert!(util::parse_fix_message(m, &mut s).is_err());
}

#[test]
fn checksum_mismatch_is_error_and_reported() {
    let mut m = framed(b"8=FIX.4.2\x019=014\x0135=TT\x0158=Hello\x01");
    let l = m.len();
    // Corrupt the claimed checksum.
    m[l - 2] = if m[l - 2] == b'9' { b'0' } else { m[l - 2] + 1 };
    let mut s = TestFixMessage::new();
    assert!(util::parse_fix_message(&m, &mut s).is_err());
    // The sink saw the whole message with a failing done.
    assert_eq!(Some(b"TT".to_vec()), s.msg_type);
    assert!(s.done && !s.last_ok);
}

#[test]
fn get_tag_value_without_soh_is_none() {
    assert!(util::get_tag_value(b"no separator here").is_none());
}

#[test]
fn get_tag_id_incomplete_is_none() {
    assert_eq!(Ok(None), util::get_tag_id(b"1234"));
}

#[test]
fn put_helpers_write_exact_bytes() {
    let mut buf: Vec<u8> = Vec::new();
    let (sum, len) = util::put_tag_id_eq(121, &mut buf);
    assert_eq!(b"121=".to_vec(), buf);
    assert_eq!(4, len);
    assert_eq!(b'1' as u32 * 2 + b'2' as u32 + b'=' as u32, sum);
    let (vsum, vlen) = util::put_tag_val_soh(b"1234", &mut buf);
    assert_eq!(b"121=1234\x01".to_vec(), buf);
    assert_eq!(5, vlen);
    assert_eq!(b'1' as u32 + b'2' as u32 + b'3' as u32 + b'4' as u32 + 1, vsum);
    let mut buf2: Vec<u8> = Vec::new();
    let (usum, ulen) = util::put_u32_soh(230, &mut buf2);
    assert_eq!(b"230\x01".to_vec(), buf2);
    assert_eq!(4, ulen);
    assert_eq!((b'2' as u32 + b'3' as u32 + b'0' as u32 + 1) % 256, usum);
    let mut buf3: Vec<u8> = Vec::new();
    let (zsum, zlen) = util::put_u32_soh(0, &mut buf3);
    assert_eq!(b"\x01".to_vec(), buf3);
    assert_eq!(1, zlen);
    assert_eq!(1, zsum);
}

#[test]
fn msg_type_bytes_round_trip() {
    let named = [
        (FixMsgType::Logon, b"A".to_vec()),
        (FixMsgType::Logout, b"5".to_vec()),
        (FixMsgType::SeqReset, b"4".to_vec()),
        (FixMsgType::Heartbeat, b"0".to_vec()),
        (FixMsgType::TestRequest, b"1".to_vec()),
        (FixMsgType::ResendRequest, b"2".to_vec()),
    ];
    for (t, bytes) in named.iter() {
        assert_eq!(bytes, &t.as_bytes());
        assert_eq!(t, &FixMsgType::from_bytes(bytes));
        assert!(FixMsgType::is_session_level(t));
    }
    let unknown = FixMsgType::from_bytes(b"TT");
    assert_eq!(FixMsgType::Unknown(b"TT".to_vec()), unknown);
    assert_eq!(b"TT".to_vec(), unknown.as_bytes());
    assert!(!FixMsgType::is_session_level(&unknown));
}

#[test]
fn slicer_tracks_consumed_bytes() {
    let data = b"121=1234\x0135=A\x01";
    let mut s = fixr::util::Slicer { buf: data, len: 0 };
    assert_eq!(&data[..], s.buf());
    s.consume(9);
    assert_eq!(b"35=A\x01", s.buf());
    let got = fixr::util::get_tag(&mut s).unwrap().unwrap();
    assert_eq!(35, got.0);
    assert_eq!(b"A", got.1);
    assert_eq!(data.len(), s.len);
}

#[test]
fn put_helpers_return_raw_sums_past_one_byte() {
    // The sums are arithmetic, not reduced modulo 256.
    let mut buf: Vec<u8> = Vec::new();
    let (sum, len) = util::put_tag_id_eq(99999, &mut buf);
    assert_eq!(b"99999=".to_vec(), buf);
    assert_eq!(6, len);
    assert_eq!(5 * b'9' as u32 + b'=' as u32, sum);
    assert_eq!(346, sum);
    let mut buf2: Vec<u8> = Vec::new();
    let (usum, _) = util::put_u32_soh(99999, &mut buf2);
    assert_eq!(b"99999\x01".to_vec(), buf2);
    assert_eq!(5 * b'9' as u32 + 1, usum);
    assert_eq!(286, usum);
    let sixty_fives = vec![65u8; 100];
    let mut buf3: Vec<u8> = Vec::new();
    let (vsum, _) = util::put_tag_val_soh(&sixty_fives, &mut buf3);
    assert_eq!(100 * 65 + 1, vsum);
}

#[test]
fn scanners_return_raw_sums() {
    let arr = b"99999=99999\x01";
    let (_, cnt, tsum) = util::get_tag_id(arr).unwrap().unwrap();
    assert_eq!(346, tsum);
    let (_, vsum) = util::get_tag_value(&arr[cnt..]).unwrap();
    assert_eq!(286, vsum);
    let mut s = fixr::util::Slicer { buf: arr, len: 0 };
    let (_, _, fsum) = fixr::util::get_tag(&mut s).unwrap().unwrap();
    assert_eq!(346 + 286, fsum);
}

#[test]
fn misplaced_header_error_names_both_tags() {
    let m = framed(b"9=014\x018=FIX.4.2\x0135=TT\x0158=Hello\x01");
    let mut s = TestFixMessage::new();
    let e = util::parse_fix_message(&m, &mut s).unwrap_err();
    assert_eq!("misplaced tag: expected 8 got 9", e);
    let m2 = framed(b"8=FIX.4.2\x0135=TT\x0158=Hello\x01");
    let mut s2 = TestFixMessage::new();
    let e2 = util::parse_fix_message(&m2, &mut s2).unwrap_err();
    assert_eq!("misplaced tag: expected 9 got 35", e2);
}

/// An application-level message-type alphabet of one word.
enum TtOnly {
    Tt,
}

impl fixr::fix::FixAppMsgType for TtOnly {
    fn lookup(btype: &[u8]) -> Option<Self> {
        if btype == b"TT" {
            Some(TtOnly::Tt)
        } else {
            None
        }
    }
}

#[test]
fn classifier_delegates_to_the_embedder() {
    let unknown_tt = FixMsgType::from_bytes(b"TT");
    let refined = FixMsgType::classify_app::<TtOnly>(unknown_tt);
    assert_eq!(FixMsgType::AppCustom(b"TT".to_vec()), refined);
    assert_eq!(b"TT".to_vec(), refined.as_bytes());
    assert!(!FixMsgType::is_session_level(&refined));
    let still_unknown = FixMsgType::classify_app::<TtOnly>(FixMsgType::from_bytes(b"XX"));
    assert_eq!(FixMsgType::Unknown(b"XX".to_vec()), still_unknown);
    let named = FixMsgType::classify_app::<TtOnly>(FixMsgType::Logon);
    assert_eq!(FixMsgType::Logon, named);
    // The unit classifier recognizes nothing.
    let none = FixMsgType::classify_app::<()>(FixMsgType::from_bytes(b"TT"));
    assert_eq!(FixMsgType::Unknown(b"TT".to_vec()), none);
}
