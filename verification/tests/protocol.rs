// Single-buffer publish/consume/recycle protocol, exercised at runtime.

use blipbuf::Blip;
use blipbuf::BlipBuf;
use blipbuf::Buffer;

fn make_buf(bytes: Vec<u8>) -> BlipBuf {
    BlipBuf::new(Buffer::from(bytes))
}

fn blip_bytes(b: &Blip) -> Vec<u8> {
    b.to_vec()
}

#[test]
fn storage_len_is_fixed() {
    let b = Buffer::from(vec![0u8; 16]);
    assert_eq!(b.len(), 16);
    let empty = Buffer::from(Vec::new());
    assert_eq!(empty.len(), 0);
}

#[test]
fn fresh_buffer_is_empty() {
    let mut bb = make_buf(vec![0u8; 8]);
    assert_eq!(bb.capacity(), 8);
    assert_eq!(bb.valid_len(), 0);
    assert_eq!(bb.extracted_len(), 0);
    assert!(!bb.is_completed());
    let (view, completed) = bb.extract_valid();
    assert!(view.is_none());
    assert!(!completed);
}

#[test]
fn publish_then_extract_exact_bytes() {
    let mut bb = make_buf(vec![0u8; 8]);
    let mut w = bb.try_regenerate().expect("fresh buffer must regenerate");
    let mut r = w.reserve(&mut bb, 3).expect("3 of 8 bytes must fit");
    r.write_at(0, 5);
    r.write_at(1, 6);
    r.write_at(2, 7);
    // nothing is visible until release
    assert_eq!(bb.valid_len(), 0);
    w.release(&mut bb, r);
    assert_eq!(bb.valid_len(), 3);
    let (view, completed) = bb.extract_valid();
    assert!(!completed);
    let view = view.expect("published bytes must be extractable");
    assert_eq!(blip_bytes(&view), vec![5, 6, 7]);
    // each byte is handed out exactly once
    let (again, _) = bb.extract_valid();
    assert!(again.is_none());
    bb.release_view(view);
}

#[test]
fn sequential_releases_extract_in_order() {
    let mut bb = make_buf(vec![0u8; 8]);
    let mut w = bb.try_regenerate().unwrap();
    let mut r1 = w.reserve(&mut bb, 2).unwrap();
    r1.write_at(0, 1);
    r1.write_at(1, 2);
    w.release(&mut bb, r1);
    let mut r2 = w.reserve(&mut bb, 2).unwrap();
    r2.write_at(0, 3);
    r2.write_at(1, 4);
    w.release(&mut bb, r2);
    let (view, _) = bb.extract_valid();
    let view = view.unwrap();
    assert_eq!(blip_bytes(&view), vec![1, 2, 3, 4]);
    bb.release_view(view);
}

#[test]
fn extraction_between_releases_loses_nothing() {
    let mut bb = make_buf(vec![0u8; 8]);
    let mut w = bb.try_regenerate().unwrap();
    let mut r1 = w.reserve(&mut bb, 2).unwrap();
    r1.write_at(0, 10);
    r1.write_at(1, 11);
    w.release(&mut bb, r1);
    let (first, _) = bb.extract_valid();
    let first = first.unwrap();
    assert_eq!(blip_bytes(&first), vec![10, 11]);
    let mut r2 = w.reserve(&mut bb, 1).unwrap();
    r2.write_at(0, 12);
    w.release(&mut bb, r2);
    let (second, _) = bb.extract_valid();
    let second = second.unwrap();
    assert_eq!(blip_bytes(&second), vec![12]);
    bb.release_view(first);
    bb.release_view(second);
}

#[test]
fn reserve_beyond_capacity_fails() {
    let mut bb = make_buf(vec![0u8; 4]);
    let mut w = bb.try_regenerate().unwrap();
    assert!(w.reserve(&mut bb, 5).is_none());
    // the failed reservation changed nothing
    assert_eq!(bb.valid_len(), 0);
    let mut r = w.reserve(&mut bb, 4).expect("exactly the capacity must fit");
    r.fill(9);
    w.release(&mut bb, r);
    // the buffer is now full
    assert!(w.reserve(&mut bb, 1).is_none());
    assert_eq!(bb.valid_len(), 4);
}

#[test]
fn unwritten_reservation_still_publishes_length() {
    // a reservation publishes length, not content validity: dropping it
    // unwritten advances `valid`, and the reader sees the storage's previous
    // contents
    let mut bb = make_buf(vec![41, 42, 43, 44, 45, 46, 47, 48]);
    let mut w = bb.try_regenerate().unwrap();
    let r = w.reserve(&mut bb, 5).unwrap();
    w.release(&mut bb, r);
    assert_eq!(bb.valid_len(), 5);
    let (view, _) = bb.extract_valid();
    let view = view.unwrap();
    assert_eq!(blip_bytes(&view), vec![41, 42, 43, 44, 45]);
    bb.release_view(view);
}

#[test]
fn regenerate_blocked_while_view_alive() {
    let mut bb = make_buf(vec![0u8; 4]);
    let mut w = bb.try_regenerate().unwrap();
    let mut r = w.reserve(&mut bb, 2).unwrap();
    r.write_at(0, 1);
    r.write_at(1, 2);
    w.release(&mut bb, r);
    w.complete(&mut bb);
    assert!(bb.is_completed());
    let (view, completed) = bb.extract_valid();
    let view = view.unwrap();
    assert!(completed);
    // the live view blocks recycling, and the counters are untouched by the
    // failed attempt
    assert!(bb.try_regenerate().is_none());
    assert_eq!(bb.valid_len(), 2);
    assert_eq!(bb.extracted_len(), 2);
    assert_eq!(bb.outstanding_views(), 1);
    // releasing the view unblocks it
    bb.release_view(view);
    assert_eq!(bb.outstanding_views(), 0);
    let w2 = bb.try_regenerate();
    assert!(w2.is_some());
    assert_eq!(bb.valid_len(), 0);
    assert_eq!(bb.extracted_len(), 0);
    assert!(!bb.is_completed());
}

#[test]
fn regenerate_blocked_while_writer_alive() {
    let mut bb = make_buf(vec![0u8; 4]);
    let w = bb.try_regenerate().unwrap();
    assert!(bb.try_regenerate().is_none());
    w.complete(&mut bb);
    assert!(bb.try_regenerate().is_some());
}

#[test]
fn foreign_view_release_is_ignored() {
    let mut a = make_buf(vec![0u8; 4]);
    let mut b = make_buf(vec![0u8; 4]);
    let mut w = a.try_regenerate().unwrap();
    let mut r = w.reserve(&mut a, 1).unwrap();
    r.write_at(0, 3);
    w.release(&mut a, r);
    let (view, _) = a.extract_valid();
    let view = view.unwrap();
    // both buffers carry the same identity here, but `b` has no outstanding
    // view, so its count must stay at zero
    b.release_view(view);
    assert_eq!(b.outstanding_views(), 0);
    assert_eq!(a.outstanding_views(), 1);
}

#[test]
fn reservation_copy_from_and_get() {
    let mut bb = make_buf(vec![0u8; 6]);
    let mut w = bb.try_regenerate().unwrap();
    let mut r = w.reserve(&mut bb, 3).unwrap();
    assert_eq!(r.len(), 3);
    r.copy_from(&vec![7, 8, 9]);
    assert_eq!(r.get(0), 7);
    assert_eq!(r.get(2), 9);
    w.release(&mut bb, r);
    let (view, _) = bb.extract_valid();
    assert_eq!(blip_bytes(&view.unwrap()), vec![7, 8, 9]);
}

#[test]
fn counters_monotone_within_a_pass() {
    let mut bb = make_buf(vec![0u8; 8]);
    let mut w = bb.try_regenerate().unwrap();
    let mut last_valid = bb.valid_len();
    let mut last_extracted = bb.extracted_len();
    let mut check = |bb: &BlipBuf, last_valid: &mut usize, last_extracted: &mut usize| {
        // extracted never exceeds valid, valid never exceeds capacity, and
        // neither ever decreases within a pass
        assert!(bb.extracted_len() <= bb.valid_len());
        assert!(bb.valid_len() <= bb.capacity());
        assert!(bb.valid_len() >= *last_valid);
        assert!(bb.extracted_len() >= *last_extracted);
        *last_valid = bb.valid_len();
        *last_extracted = bb.extracted_len();
    };
    let mut views = Vec::new();
    for step in 0..4 {
        let mut r = w.reserve(&mut bb, 2).unwrap();
        r.write_at(0, step);
        check(&bb, &mut last_valid, &mut last_extracted);
        w.release(&mut bb, r);
        check(&bb, &mut last_valid, &mut last_extracted);
        if step % 2 == 1 {
            let (view, _) = bb.extract_valid();
            views.push(view.unwrap());
            check(&bb, &mut last_valid, &mut last_extracted);
        }
    }
    // everything was already drained by the extraction after the last step
    let (view, _) = bb.extract_valid();
    assert!(view.is_none());
    check(&bb, &mut last_valid, &mut last_extracted);
    assert_eq!(bb.valid_len(), 8);
    assert_eq!(bb.extracted_len(), 8);
}

#[test]
fn zero_length_reservation_publishes_nothing() {
    let mut bb = make_buf(vec![0u8; 4]);
    let mut w = bb.try_regenerate().unwrap();
    let r = w.reserve(&mut bb, 0).unwrap();
    w.release(&mut bb, r);
    assert_eq!(bb.valid_len(), 0);
    let (view, _) = bb.extract_valid();
    assert!(view.is_none());
}
