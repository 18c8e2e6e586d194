use cloudflow::buffers::{FragmentBuffer, Region, Segment, SegmentTree};
use cloudflow::error::{Error, ErrorKind, ErrorOrigin};
use cloudflow::session::{client_on_frame, place_data, register_reads, ClientEvent, FrameHead};

#[test]
fn fragment_buffer_new_buffer_when_none_fits() {
    let mut fb = FragmentBuffer::new();
    let a = fb.get(8);
    assert_eq!(a, Region { buf: 0, off: 0, len: 8 });
    assert_eq!(fb.buffer_count(), 1);
    assert_eq!(fb.buffer_len(0), 8);
    let b = fb.get(4);
    assert_eq!(b, Region { buf: 1, off: 0, len: 4 });
    assert_eq!(fb.buffer_count(), 2);
}

#[test]
fn fragment_buffer_reuses_best_fit() {
    let mut fb = FragmentBuffer::new();
    let a = fb.get(8);
    let b = fb.get(3);
    fb.put_back(a);
    fb.put_back(b);
    // 3 bytes: the 3-byte fragment is the shortest that fits
    let c = fb.get(3);
    assert_eq!(c, Region { buf: 1, off: 0, len: 3 });
    // 5 bytes: cut from the 8-byte fragment; its rest stays free
    let d = fb.get(5);
    assert_eq!(d, Region { buf: 0, off: 0, len: 5 });
    let e = fb.get(3);
    assert_eq!(e, Region { buf: 0, off: 5, len: 3 });
    assert_eq!(fb.buffer_count(), 2);
}

#[test]
fn put_back_then_get_same_size() {
    let mut fb = FragmentBuffer::new();
    let a = fb.get(16);
    fb.put_back(a);
    assert_eq!(fb.get(16), a);
}

#[test]
fn segment_tree_lookup() {
    let mut t = SegmentTree::new();
    t.add_seg(0x100, 0, 0, 0x10);
    t.add_seg(0x200, 1, 4, 0x8);
    assert!(t.get(0x50, 4).is_none());
    let s = t.get(0x104, 0x20).unwrap();
    assert_eq!(s, Segment { start: 0x104, len: 0xc, dest: 0, off: 4 });
    let s = t.get(0x100, 2).unwrap();
    assert_eq!(s, Segment { start: 0x100, len: 2, dest: 0, off: 0 });
    let s = t.get(0x202, 2).unwrap();
    assert_eq!(s, Segment { start: 0x202, len: 2, dest: 1, off: 6 });
    // the taken range is gone
    assert!(t.get(0x104, 1).is_none());
}

#[test]
fn place_data_tiles_range() {
    let mut t = SegmentTree::new();
    t.add_seg(0x100, 0, 0, 4);
    t.add_seg(0x104, 1, 0, 4);
    let ps = place_data(&mut t, 0x100, 8).unwrap();
    assert_eq!(ps.len(), 2);
    assert_eq!(ps[0], Segment { start: 0x100, len: 4, dest: 0, off: 0 });
    assert_eq!(ps[1], Segment { start: 0x104, len: 4, dest: 1, off: 0 });
    let mut t = SegmentTree::new();
    t.add_seg(0x100, 0, 0, 4);
    assert!(place_data(&mut t, 0x100, 8).is_none());
    assert_eq!(place_data(&mut t, 0x500, 0).unwrap().len(), 0);
}

#[test]
fn client_frames() {
    let mut t = SegmentTree::new();
    register_reads(&mut t, &vec![(0x1000, 8), (0x2000, 4)]);
    match client_on_frame(&mut t, FrameHead::Data(0x1000, 8)) {
        ClientEvent::Deliver(p) => assert_eq!(p, vec![Segment { start: 0x1000, len: 8, dest: 0, off: 0 }]),
        _ => panic!("expected a delivery"),
    }
    match client_on_frame(&mut t, FrameHead::Fail(0x2002, 2, -1)) {
        ClientEvent::Deliver(p) => assert_eq!(p, vec![Segment { start: 0x2002, len: 2, dest: 1, off: 2 }]),
        _ => panic!("expected a delivery"),
    }
    assert!(matches!(client_on_frame(&mut t, FrameHead::Data(0x9000, 1)), ClientEvent::Unrequested));
    assert!(matches!(client_on_frame(&mut t, FrameHead::Unknown(7)), ClientEvent::Ignored));
    assert!(matches!(client_on_frame(&mut t, FrameHead::Done(0)), ClientEvent::Finished(Ok(()))));
    let e = Error(ErrorOrigin::Read, ErrorKind::Unknown);
    match client_on_frame(&mut t, FrameHead::Done(e.into_int_err())) {
        ClientEvent::Finished(r) => assert_eq!(r, Err(e)),
        _ => panic!("expected the end"),
    }
}

#[test]
fn segment_tree_same_start_order() {
    let mut t = SegmentTree::new();
    t.add_seg(0x100, 0, 0, 4);
    t.add_seg(0x100, 1, 0, 4);
    t.add_seg(0x100, 2, 0, 4);
    // the first registration of the start is taken, and the last one takes its place
    assert_eq!(t.get(0x100, 4).unwrap().dest, 0);
    assert_eq!(t.get(0x100, 4).unwrap().dest, 2);
    assert_eq!(t.get(0x100, 4).unwrap().dest, 1);
    assert!(t.get(0x100, 4).is_none());
}
