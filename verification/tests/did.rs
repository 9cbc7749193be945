use rings_swarm::did::Did;
use rings_swarm::error::Error;

const MAX_LO: u128 = u128::MAX;

#[test]
fn did_from_str_reads_forty_digits() {
    let d = Did::from_str("0102030405060708090a0b0c0d0e0f1011121314").unwrap();
    assert_eq!(d, Did::new(0x01020304, 0x05060708090a0b0c0d0e0f1011121314));
}

#[test]
fn did_from_str_takes_prefix_and_upper_case() {
    let d = Did::from_str("0xFFFFFFFF000000000000000000000000000000AB").unwrap();
    assert_eq!(d, Did::new(0xffff_ffff, 0xab));
}

#[test]
fn did_from_str_refuses_wrong_length() {
    let s = "0x0102";
    assert_eq!(Did::from_str(s), Err(Error::MalformedCid(s.to_string())));
    let long = "0".repeat(41);
    assert_eq!(Did::from_str(&long), Err(Error::MalformedCid(long.clone())));
    assert_eq!(Did::from_str(""), Err(Error::MalformedCid(String::new())));
}

#[test]
fn did_from_str_refuses_non_hex_digit() {
    let s = "0x010203040506070809000000000000000000000g";
    assert_eq!(Did::from_str(s), Err(Error::MalformedCid(s.to_string())));
    let t = "0X0102030405060708090000000000000000000000";
    assert_eq!(Did::from_str(t), Err(Error::MalformedCid(t.to_string())));
}

#[test]
fn did_to_string_is_prefixed_lower_case() {
    let d = Did::new(0xABCDEF01, 0x23456789_0000_0000_0000_0000_0000_00ff);
    assert_eq!(d.to_string(), "0xabcdef01234567890000000000000000000000ff");
    assert_eq!(Did::zero().to_string(), "0x0000000000000000000000000000000000000000");
}

#[test]
fn did_string_round_trip() {
    for d in [Did::zero(), Did::one(), Did::new(7, 9), Did::new(u32::MAX, MAX_LO)] {
        assert_eq!(Did::from_str(&d.to_string()), Ok(d));
    }
}

#[test]
fn did_distance_is_clockwise() {
    let a = Did::new(0, 10);
    let b = Did::new(0, 25);
    assert_eq!(a.distance_to(&b), Did::new(0, 15));
    assert_eq!(b.distance_to(&a), Did::new(u32::MAX, MAX_LO - 14));
    assert_eq!(a.distance_to(&a), Did::zero());
}

#[test]
fn did_distance_wraps_past_zero() {
    let top = Did::new(u32::MAX, MAX_LO);
    assert_eq!(top.distance_to(&Did::zero()), Did::one());
    assert_eq!(Did::zero().distance_to(&top), top);
}

#[test]
fn did_distance_borrows_from_high_word() {
    let a = Did::new(1, 0);
    let b = Did::new(0, MAX_LO);
    assert_eq!(b.distance_to(&a), Did::one());
    assert_eq!(a.distance_to(&b), Did::new(u32::MAX, MAX_LO));
}

#[test]
fn did_wrapping_add_carries_and_wraps() {
    let top = Did::new(u32::MAX, MAX_LO);
    assert_eq!(top.wrapping_add(&Did::one()), Did::zero());
    assert_eq!(Did::new(0, MAX_LO).wrapping_add(&Did::one()), Did::new(1, 0));
    assert_eq!(Did::new(3, 4).wrapping_add(&Did::new(5, 6)), Did::new(8, 10));
}

#[test]
fn did_between_open_and_closed() {
    let a = Did::new(0, 10);
    let b = Did::new(0, 20);
    assert!(Did::new(0, 15).is_between(&a, &b));
    assert!(!a.is_between(&a, &b));
    assert!(!b.is_between(&a, &b));
    assert!(b.is_between_closed(&a, &b));
    assert!(!a.is_between_closed(&a, &b));
    assert!(!Did::new(0, 21).is_between_closed(&a, &b));
}

#[test]
fn did_between_across_zero() {
    let a = Did::new(u32::MAX, 0);
    let b = Did::new(0, 5);
    assert!(Did::zero().is_between(&a, &b));
    assert!(Did::new(u32::MAX, 9).is_between(&a, &b));
    assert!(!Did::new(0, 6).is_between(&a, &b));
    assert!(!Did::new(7, 0).is_between_closed(&a, &b));
}

#[test]
fn did_nothing_is_between_a_point_and_itself() {
    let a = Did::new(0, 10);
    assert!(!Did::new(0, 11).is_between(&a, &a));
    assert!(!a.is_between_closed(&a, &a));
    assert!(!Did::zero().is_between_closed(&a, &a));
}

#[test]
fn did_lt_is_numeric() {
    assert!(Did::new(0, MAX_LO).lt(&Did::new(1, 0)));
    assert!(!Did::new(1, 0).lt(&Did::new(0, MAX_LO)));
    assert!(!Did::new(1, 1).lt(&Did::new(1, 1)));
    assert!(Did::zero().lt(&Did::one()));
}

#[test]
fn did_pow2_values() {
    assert_eq!(Did::pow2(0), Did::one());
    assert_eq!(Did::pow2(10), Did::new(0, 1024));
    assert_eq!(Did::pow2(127), Did::new(0, 1u128 << 127));
    assert_eq!(Did::pow2(128), Did::new(1, 0));
    assert_eq!(Did::pow2(159), Did::new(0x8000_0000, 0));
}

#[test]
fn did_finger_start_wraps() {
    let d = Did::new(0x8000_0000, 5);
    assert_eq!(d.finger_start(159), Did::new(0, 5));
    assert_eq!(d.finger_start(0), Did::new(0x8000_0000, 6));
    assert_eq!(Did::zero().finger_start(128), Did::new(1, 0));
}

#[test]
fn did_bytes_are_little_endian() {
    let d = Did::new(0x01020304, 0x05060708090a0b0c0d0e0f1011121314);
    let bytes = d.to_bytes();
    assert_eq!(
        bytes,
        vec![
            0x14, 0x13, 0x12, 0x11, 0x10, 0x0f, 0x0e, 0x0d, 0x0c, 0x0b, 0x0a, 0x09, 0x08, 0x07,
            0x06, 0x05, 0x04, 0x03, 0x02, 0x01
        ]
    );
    assert_eq!(Did::from_bytes(&bytes), d);
}

#[test]
fn did_from_digest_takes_the_low_160_bits() {
    let digest: Vec<u8> = (0u8..32).collect();
    assert_eq!(
        Did::from_digest(&digest),
        Some(Did::new(0x0c0d0e0f, 0x101112131415161718191a1b1c1d1e1f))
    );
    assert_eq!(Did::from_digest(&[0xff; 32]), Some(Did::new(u32::MAX, u128::MAX)));
    assert_eq!(Did::from_digest(&[0; 32]), Some(Did::zero()));
    let mut one = vec![0xaa; 12];
    one.extend([0u8; 19]);
    one.push(1);
    assert_eq!(Did::from_digest(&one), Some(Did::one()));
}

#[test]
fn did_from_digest_needs_32_bytes() {
    assert_eq!(Did::from_digest(&[0; 31]), None);
    assert_eq!(Did::from_digest(&[0; 33]), None);
    assert_eq!(Did::from_digest(&[]), None);
}
