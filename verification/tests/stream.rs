// The multi-buffer stream queue: ordering, rolling, recycling, backpressure.

use blipbuf::blip_queue;
use blipbuf::BlipBuf;
use blipbuf::Buffer;

fn pool(count: usize, capacity: usize) -> Vec<BlipBuf> {
    let mut bufs = Vec::new();
    let mut i = 0;
    while i < count {
        bufs.push(BlipBuf::new(Buffer::from(vec![0u8; capacity])));
        i += 1;
    }
    bufs
}

#[test]
fn empty_queue_receives_nothing() {
    let (_tx, mut rx, mut q) = blip_queue(pool(2, 8));
    assert!(rx.recv(&mut q).is_none());
}

#[test]
fn one_send_one_recv() {
    let (mut tx, mut rx, mut q) = blip_queue(pool(2, 8));
    let mut r = tx.reserve_send(&mut q, 3).expect("a fresh pool must accept a send");
    r.copy_from(&vec![1, 2, 3]);
    tx.release_send(&mut q, r);
    let view = rx.recv(&mut q).expect("published bytes must arrive");
    assert_eq!(view.to_vec(), vec![1, 2, 3]);
    assert!(rx.recv(&mut q).is_none());
    rx.release(&mut q, view);
}

#[test]
fn rolls_to_second_buffer_when_full() {
    // pool of 2 buffers, 16 bytes each: 10 bytes, then 10 more that do not
    // fit in the 6 remaining, must roll to the second buffer
    let (mut tx, mut rx, mut q) = blip_queue(pool(2, 16));
    let mut r = tx.reserve_send(&mut q, 10).unwrap();
    r.fill(0xAA);
    tx.release_send(&mut q, r);
    let first = rx.recv(&mut q).expect("first burst");
    assert_eq!(first.to_vec(), vec![0xAA; 10]);
    let mut r = tx.reserve_send(&mut q, 10).expect("rolling to the second buffer must succeed");
    r.fill(0xBB);
    tx.release_send(&mut q, r);
    let second = rx.recv(&mut q).expect("second burst");
    assert_eq!(second.to_vec(), vec![0xBB; 10]);
    assert!(rx.recv(&mut q).is_none());
    rx.release(&mut q, first);
    rx.release(&mut q, second);
}

#[test]
fn stream_order_is_send_order() {
    // successive sends, each within single-buffer capacity, arrive in order
    // with pass boundaries invisible
    let (mut tx, mut rx, mut q) = blip_queue(pool(3, 4));
    let bursts: Vec<Vec<u8>> = vec![
        vec![1, 2, 3],
        vec![4, 5],
        vec![6, 7, 8],
        vec![9],
        vec![10, 11],
    ];
    let mut sent: Vec<u8> = Vec::new();
    let mut got: Vec<u8> = Vec::new();
    for burst in &bursts {
        let mut r = tx.reserve_send(&mut q, burst.len()).expect("pool must keep up");
        r.copy_from(burst);
        tx.release_send(&mut q, r);
        sent.extend(burst.iter().copied());
        while let Some(view) = rx.recv(&mut q) {
            got.extend(view.to_vec());
            rx.release(&mut q, view);
        }
    }
    assert_eq!(got, sent);
}

#[test]
fn backpressure_when_pool_exhausted() {
    let (mut tx, mut rx, mut q) = blip_queue(pool(1, 4));
    let mut r = tx.reserve_send(&mut q, 3).unwrap();
    r.copy_from(&vec![1, 2, 3]);
    tx.release_send(&mut q, r);
    let view = rx.recv(&mut q).unwrap();
    // the single buffer has 1 byte left and its view is outstanding: a
    // 3-byte send can neither fit nor roll anywhere
    assert!(tx.reserve_send(&mut q, 3).is_none());
    // releasing the view and draining the retired pass frees the buffer
    rx.release(&mut q, view);
    assert!(rx.recv(&mut q).is_none());
    let mut r = tx.reserve_send(&mut q, 3).expect("recycled buffer must be selectable again");
    r.copy_from(&vec![4, 5, 6]);
    tx.release_send(&mut q, r);
    let next = rx.recv(&mut q).unwrap();
    assert_eq!(next.to_vec(), vec![4, 5, 6]);
    rx.release(&mut q, next);
}

#[test]
fn oversized_send_is_refused() {
    let (mut tx, _rx, mut q) = blip_queue(pool(2, 4));
    assert!(tx.reserve_send(&mut q, 5).is_none());
}

#[test]
fn empty_pool_always_backpressures() {
    let (mut tx, mut rx, mut q) = blip_queue(Vec::new());
    assert!(tx.reserve_send(&mut q, 1).is_none());
    assert!(rx.recv(&mut q).is_none());
}

#[test]
fn zero_length_send_arrives_as_nothing() {
    let (mut tx, mut rx, mut q) = blip_queue(pool(1, 4));
    let r = tx.reserve_send(&mut q, 0).unwrap();
    tx.release_send(&mut q, r);
    // nothing was published, so nothing arrives
    assert!(rx.recv(&mut q).is_none());
}

#[test]
fn unwritten_send_still_published() {
    let (mut tx, mut rx, mut q) = blip_queue(pool(1, 8));
    let r = tx.reserve_send(&mut q, 4).unwrap();
    tx.release_send(&mut q, r);
    let view = rx.recv(&mut q).expect("length was published even though nothing was written");
    assert_eq!(view.len(), 4);
    rx.release(&mut q, view);
}
