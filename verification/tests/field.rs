use committed_records::field::{modulus_bytes, Fe};

#[test]
fn from_u64_and_compare() {
    let a = Fe::from_u64(3);
    let b = Fe::from_u64(5);
    assert!(a.lt(&b));
    assert!(!b.lt(&a));
    assert!(!a.lt(&a));
    assert!(a.eq_val(&a));
    assert!(!a.eq_val(&b));
}

#[test]
fn add_small() {
    let a = Fe::from_u64(5);
    let b = Fe::from_u64(7);
    let c = a.add(&b);
    assert!(c.eq_val(&Fe::from_u64(12)));
}

// (modulus - 1) + 5 wraps to 4.
#[test]
fn add_wraps_at_modulus() {
    let mut bytes = modulus_bytes();
    assert_eq!(bytes[0], 0x01);
    bytes[0] = 0x00;
    let near = Fe::from_le_bytes(bytes).expect("modulus - 1 is a canonical element");
    let sum = near.add(&Fe::from_u64(5));
    assert!(sum.eq_val(&Fe::from_u64(4)));
}

#[test]
fn from_le_bytes_rejects_modulus_and_bad_length() {
    assert!(Fe::from_le_bytes(modulus_bytes()).is_none());
    assert!(Fe::from_le_bytes(vec![0u8; 31]).is_none());
    assert!(Fe::from_le_bytes(vec![0u8; 33]).is_none());
    assert!(Fe::from_le_bytes(vec![0u8; 32]).is_some());
}

#[test]
fn byte_round_trip() {
    let a = Fe::from_u64(0xdead_beef_1234_5678);
    let bytes = a.to_le_bytes();
    assert_eq!(bytes.len(), 32);
    let back = Fe::from_le_bytes(bytes).expect("canonical bytes round-trip");
    assert!(a.eq_val(&back));
}

#[test]
fn duplicate_preserves_value() {
    let a = Fe::from_u64(999);
    let b = a.duplicate();
    assert!(a.eq_val(&b));
}
