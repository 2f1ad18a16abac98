// Progressive, copy-free splitting of extracted views.

use blipbuf::BlipBuf;
use blipbuf::Buffer;

fn published_view(bytes: Vec<u8>) -> (BlipBuf, blipbuf::Blip) {
    let len = bytes.len();
    let mut bb = BlipBuf::new(Buffer::from(vec![0u8; len]));
    let mut w = bb.try_regenerate().unwrap();
    let mut r = w.reserve(&mut bb, len).unwrap();
    r.copy_from(&bytes);
    w.release(&mut bb, r);
    let (view, _) = bb.extract_valid();
    (bb, view.unwrap())
}

#[test]
fn extract_to_splits_at_index() {
    let (_bb, mut view) = published_view(vec![1, 2, 3, 4, 5]);
    let prefix = view.extract_to(2);
    assert_eq!(prefix.len(), 2);
    assert_eq!(view.len(), 3);
    assert_eq!(prefix.to_vec(), vec![1, 2]);
    assert_eq!(view.to_vec(), vec![3, 4, 5]);
    // prefix + remainder is byte-for-byte the view before the split
    let mut whole = prefix.to_vec();
    whole.extend(view.to_vec());
    assert_eq!(whole, vec![1, 2, 3, 4, 5]);
}

#[test]
fn extract_to_zero_and_full_length() {
    let (_bb, mut view) = published_view(vec![9, 8, 7]);
    let empty = view.extract_to(0);
    assert_eq!(empty.len(), 0);
    assert_eq!(view.to_vec(), vec![9, 8, 7]);
    let all = view.extract_to(3);
    assert_eq!(all.to_vec(), vec![9, 8, 7]);
    assert_eq!(view.len(), 0);
}

#[test]
fn repeated_splits_walk_the_view() {
    let (_bb, mut view) = published_view(vec![0, 1, 2, 3, 4, 5, 6, 7]);
    let mut walked: Vec<u8> = Vec::new();
    while view.len() > 0 {
        let step = if view.len() < 3 { view.len() } else { 3 };
        let piece = view.extract_to(step);
        walked.extend(piece.to_vec());
    }
    assert_eq!(walked, vec![0, 1, 2, 3, 4, 5, 6, 7]);
}

#[test]
fn split_prefix_is_not_counted() {
    let (mut bb, mut view) = published_view(vec![1, 2, 3, 4]);
    assert_eq!(bb.outstanding_views(), 1);
    let prefix = view.extract_to(2);
    // releasing the uncounted prefix changes nothing
    bb.release_view(prefix);
    assert_eq!(bb.outstanding_views(), 1);
    assert!(bb.try_regenerate().is_none());
    // releasing the remainder, which kept the counted role, unpins the buffer
    bb.release_view(view);
    assert_eq!(bb.outstanding_views(), 0);
}

#[test]
fn byte_access_on_views() {
    let (_bb, view) = published_view(vec![10, 20, 30]);
    assert_eq!(view.get(0), 10);
    assert_eq!(view.get(2), 30);
    assert_eq!(view.len(), 3);
}
