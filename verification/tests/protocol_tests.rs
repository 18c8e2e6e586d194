use cloudflow::error::{Error, ErrorKind, ErrorOrigin};
use cloudflow::protocol::{
    decode_frame, decode_request_entry, done_code, encode_frame, encode_read_request, get_i32,
    get_u64, put_i32, put_u64, result_of_done, Frame, FrontendFuncs,
};
use cloudflow::session::{done_frame, server_action, ServerAction, ServerRead};

#[test]
fn frontend_codes() {
    assert_eq!(FrontendFuncs::Read.code(), 0);
    assert_eq!(FrontendFuncs::List.code(), 6);
    assert_eq!(FrontendFuncs::Highest.code(), 7);
    assert!(matches!(FrontendFuncs::from_code(0), Some(FrontendFuncs::Read)));
    assert!(matches!(FrontendFuncs::from_code(5), Some(FrontendFuncs::Metadata)));
    assert!(FrontendFuncs::from_code(7).is_none());
    assert!(FrontendFuncs::from_code(200).is_none());
}

#[test]
fn little_endian_fields() {
    let mut out = Vec::new();
    put_u64(&mut out, 0x0102030405060708);
    put_i32(&mut out, -2);
    assert_eq!(out, vec![8, 7, 6, 5, 4, 3, 2, 1, 0xfe, 0xff, 0xff, 0xff]);
    assert_eq!(get_u64(&out, 0), 0x0102030405060708);
    assert_eq!(get_i32(&out, 8), -2);
}

#[test]
fn frame_round_trip() {
    let frames = vec![
        Frame::Done(0),
        Frame::Data(0x1000, vec![1, 2, 3]),
        Frame::Fail(0x2000, 16, -5),
        Frame::Done(-7),
    ];
    let mut out = Vec::new();
    for f in frames.iter() {
        encode_frame(&mut out, f);
    }
    assert_eq!(out.len(), 5 + 20 + 21 + 5);
    let mut pos = 0;
    let mut back = Vec::new();
    while let Some((f, next)) = decode_frame(&out, pos) {
        back.push(f);
        pos = next;
    }
    assert_eq!(pos, out.len());
    assert_eq!(back, frames);
}

#[test]
fn frame_exact_bytes() {
    let mut out = Vec::new();
    encode_frame(&mut out, &Frame::Data(2, vec![9]));
    assert_eq!(out, vec![1, 2, 0, 0, 0, 0, 0, 0, 0, 1, 0, 0, 0, 0, 0, 0, 0, 9]);
}

#[test]
fn partial_and_unknown_frames() {
    assert!(decode_frame(&[0, 1, 2], 0).is_none());
    assert!(decode_frame(&[1, 0, 0], 0).is_none());
    assert!(decode_frame(&[], 0).is_none());
    let (f, n) = decode_frame(&[9, 0], 0).unwrap();
    assert_eq!(f, Frame::Unknown(9));
    assert_eq!(n, 1);
}

#[test]
fn done_codes() {
    assert_eq!(done_code(Ok(())), 0);
    let e = Error(ErrorOrigin::Read, ErrorKind::OutOfBounds);
    assert_eq!(done_code(Err(e)), e.into_int_err());
    assert_eq!(result_of_done(0), Ok(()));
    assert_eq!(result_of_done(e.into_int_err()), Err(e));
}

#[test]
fn read_request_encoding() {
    let mut out = Vec::new();
    encode_read_request(&mut out, 3, &vec![(0x10, 4), (0x20, 8)]);
    assert_eq!(out.len(), 1 + 8 + 16 * 3);
    assert_eq!(out[0], 0);
    assert_eq!(get_u64(&out, 1), 3);
    assert_eq!(decode_request_entry(&out, 9), Some((0x10, 4)));
    assert_eq!(decode_request_entry(&out, 25), Some((0x20, 8)));
    assert_eq!(decode_request_entry(&out, 41), None);
}

#[test]
fn server_commands() {
    assert_eq!(server_action(0), ServerAction::Read);
    assert_eq!(server_action(1), ServerAction::Ignore);
    assert_eq!(server_action(6), ServerAction::Ignore);
    assert_eq!(server_action(7), ServerAction::Ignore);
    assert_eq!(server_action(255), ServerAction::Ignore);
}

#[test]
fn server_read_answers() {
    let mut s = ServerRead::new();
    assert!(s.request_buffer(0).is_none());
    let r = s.request_buffer(4).unwrap();
    assert_eq!(r.len, 4);
    let out = s.data_frame(0x40, r, vec![1, 2, 3, 4]);
    let (f, n) = decode_frame(&out, 0).unwrap();
    assert_eq!(f, Frame::Data(0x40, vec![1, 2, 3, 4]));
    assert_eq!(n, out.len());
    let r2 = s.request_buffer(4).unwrap();
    // the fragment given back is handed out again
    assert_eq!(r2, r);
    let e = Error(ErrorOrigin::Read, ErrorKind::Unknown);
    let out = s.fail_frame(0x80, r2, e);
    let (f, _) = decode_frame(&out, 0).unwrap();
    assert_eq!(f, Frame::Fail(0x80, 4, e.into_int_err()));
    let out = done_frame(Err(e));
    assert_eq!(decode_frame(&out, 0).unwrap().0, Frame::Done(e.into_int_err()));
    assert_eq!(done_frame(Ok(())), vec![0, 0, 0, 0, 0]);
}
