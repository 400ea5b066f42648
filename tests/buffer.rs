use media_dispatch::buffer::{Buffer, MediaData, MediaType};

#[test]
fn new_buffer_is_empty_with_declared_sizes() {
    let b = Buffer::new(4, 16);
    assert_eq!(b.size(), 4);
    assert_eq!(b.capacity(), 16);
    assert!(b.data().is_empty());
}

#[test]
fn replace_overwrites_bytes() {
    let mut b = Buffer::new(0, 0);
    b.replace(vec![1, 2, 3]);
    assert_eq!(b.data().clone(), vec![1, 2, 3]);
    b.replace(vec![9]);
    assert_eq!(b.data().clone(), vec![9]);
    assert_eq!(b.size(), 0);
}

#[test]
fn append_moves_bytes() {
    let mut b = Buffer::new(0, 0);
    b.replace(vec![1]);
    let mut more = vec![2, 3];
    b.append(&mut more);
    assert_eq!(b.data().clone(), vec![1, 2, 3]);
    assert!(more.is_empty());
}

#[test]
fn set_capacity_keeps_bytes() {
    let mut b = Buffer::new(0, 0);
    b.replace(vec![5, 6]);
    b.set_capacity(64);
    assert_eq!(b.capacity(), 64);
    assert_eq!(b.data().clone(), vec![5, 6]);
}

#[test]
fn default_frame_is_combined_kind() {
    let f = MediaData::default();
    assert_eq!(f.media_type, MediaType::AV);
    assert_eq!(MediaType::default(), MediaType::AV);
    assert!(!f.key_frame);
    assert_eq!(f.pts, 0);
}
