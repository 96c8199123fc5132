use minimq::ring_buffer::RingBuffer;

#[test]
fn empty() {
    let mut data = [0; 256];
    let mut buffer = RingBuffer::new(&mut data);

    assert!(buffer.len() == 0);
    assert!(buffer.remainder() == 256);

    let len = buffer.len();
    let (head, tail) = buffer.slices_mut(0, len);
    assert!(head.is_empty());
    assert!(tail.is_empty());
}

#[test]
fn push() {
    let mut backing = [0; 256];
    let mut buffer = RingBuffer::new(&mut backing);

    let data = [1, 2, 3];
    assert!(buffer.push_slice(&data).is_none());

    assert!(buffer.len() == 3);
    assert!(buffer.remainder() == 253);

    let len = buffer.len();
    let (head, tail) = buffer.slices_mut(0, len);
    assert!(head == [1, 2, 3]);
    assert!(tail.is_empty());

    assert!(buffer.push_slice(&data).is_none());
    let len = buffer.len();
    let (head, tail) = buffer.slices_mut(0, len);
    assert!(head == [1, 2, 3, 1, 2, 3]);
    assert!(tail.is_empty());
}

#[test]
fn push_overflow() {
    let mut backing = [0; 256];
    let mut buffer = RingBuffer::new(&mut backing);

    let data = [0; 256];
    assert!(buffer.push_slice(&data).is_none());

    assert!(buffer.len() == 256);
    assert!(buffer.remainder() == 0);

    assert!(buffer.push_slice(&[1]).is_some());
    assert!(buffer.len() == 256);
    assert!(buffer.remainder() == 0);

    let len = buffer.len();
    let (head, tail) = buffer.slices_mut(0, len);
    assert!(head == [0; 256]);
    assert!(tail.is_empty());
}

#[test]
fn pop() {
    let mut backing = [0; 256];
    let mut buffer = RingBuffer::new(&mut backing);

    let data = [1, 2, 3];
    assert!(buffer.push_slice(&data).is_none());

    assert!(buffer.len() == 3);
    buffer.pop(1);
    assert!(buffer.len() == 2);
    buffer.pop(1);
    assert!(buffer.len() == 1);

    buffer.pop(1);
    assert!(buffer.len() == 0);
}

#[test]
fn pop_underflow() {
    let mut backing = [0; 256];
    let mut buffer = RingBuffer::new(&mut backing);

    let data = [1, 2, 3];
    assert!(buffer.push_slice(&data).is_none());

    buffer.pop(1);
    assert!(buffer.len() == 2);

    buffer.pop(10);
    assert!(buffer.len() == 0);
}

#[test]
fn pop_wrap() {
    let mut backing = [0; 256];
    let mut buffer = RingBuffer::new(&mut backing);

    let data = [0; 256];
    assert!(buffer.push_slice(&data).is_none());

    buffer.pop(10);

    assert!(buffer.push_slice(&[1, 2, 3]).is_none());

    let len = buffer.len();
    let (head, tail) = buffer.slices_mut(0, len);
    assert!(head == [0; 246]);
    assert!(tail == [1, 2, 3]);

    buffer.pop(247);
    let len = buffer.len();
    let (head, tail) = buffer.slices_mut(0, len);
    assert!(head == [2, 3]);
    assert!(tail.is_empty());
}

#[test]
fn push_wrap() {
    let mut backing = [0; 256];
    let mut buffer = RingBuffer::new(&mut backing);

    let data = [0; 255];
    assert!(buffer.push_slice(&data).is_none());

    buffer.pop(10);

    assert!(buffer.push_slice(&[1, 2, 3]).is_none());
    let len = buffer.len();
    let (head, tail) = buffer.slices_mut(0, len);
    assert!(*head.last().unwrap() == 1);
    assert!(tail == [2, 3]);
}

#[test]
fn ring_bytes_leave_in_push_order() {
    let mut backing = [0; 4];
    let mut buffer = RingBuffer::new(&mut backing);
    assert!(buffer.push_slice(&[1, 2, 3]).is_none());
    buffer.pop(2);
    assert!(buffer.push_slice(&[4, 5, 6]).is_none());
    buffer.pop(1);
    let len = buffer.len();
    let (head, tail) = buffer.slices_mut(0, len);
    let mut all = head.to_vec();
    all.extend_from_slice(tail);
    assert_eq!(all, vec![4, 5, 6]);
}
