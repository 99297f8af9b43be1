use glowbarn::secure_memory::{constant_time_compare, secure_fill, SecureBuffer, SecureString};

#[test]
fn test_secure_buffer() {
    let mut buf = SecureBuffer::new(32);
    secure_fill(&mut buf);
    assert_eq!(buf.len(), 32);
}

#[test]
fn test_secure_string() {
    let s = SecureString::new("secret password");
    assert_eq!(s.as_str(), "secret password");
}

#[test]
fn test_constant_time_compare() {
    let a = b"hello world";
    let b = b"hello world";
    let c = b"hello world!";
    let d = b"goodbye wor";

    assert!(constant_time_compare(a, b));
    assert!(!constant_time_compare(a, c));
    assert!(!constant_time_compare(a, d));
}

#[test]
fn secure_buffer_starts_zeroed_and_copies_slices() {
    let buf = SecureBuffer::new(4);
    assert_eq!(buf.as_slice(), &[0u8, 0, 0, 0]);
    let copy = SecureBuffer::from_slice(&[1, 2, 3]);
    assert_eq!(copy.as_slice(), &[1u8, 2, 3]);
    assert!(!copy.is_empty());
}

#[test]
fn clearing_a_buffer_wipes_it() {
    let mut buf = SecureBuffer::from_slice(b"key material");
    buf.clear();
    assert!(buf.is_empty());
    assert_eq!(buf.len(), 0);
}

#[test]
fn clearing_a_string_wipes_it() {
    let mut s = SecureString::from_string("token".to_string());
    assert_eq!(s.len(), 5);
    s.clear();
    assert!(s.is_empty());
}

#[test]
fn fill_from_overwrites_contents() {
    let mut buf = SecureBuffer::new(3);
    buf.fill_from(&[7, 8, 9]);
    assert_eq!(buf.as_slice(), &[7u8, 8, 9]);
}

#[test]
fn random_fill_changes_a_zero_buffer() {
    let mut buf = SecureBuffer::new(64);
    assert!(secure_fill(&mut buf));
    assert_eq!(buf.len(), 64);
    assert!(buf.as_slice().iter().any(|&b| b != 0));
}
