use sdb::{DecodeError, Entity, ValidationError};

fn entity(id: u64, name: &str, description: &str) -> Entity {
    Entity::new(id, name.to_string(), description.to_string()).unwrap()
}

#[test]
fn zero_id_is_rejected() {
    let r = Entity::new(0, "john".to_string(), "doe".to_string());
    assert!(matches!(r, Err(ValidationError::ZeroId)));
}

#[test]
fn name_of_32_bytes_is_rejected() {
    let r = Entity::new(1, "a".repeat(32), "doe".to_string());
    assert!(matches!(r, Err(ValidationError::NameTooLong)));
    let ok = Entity::new(1, "a".repeat(31), "doe".to_string());
    assert!(ok.is_ok());
}

#[test]
fn description_of_255_bytes_is_rejected() {
    let r = Entity::new(1, "john".to_string(), "d".repeat(255));
    assert!(matches!(r, Err(ValidationError::DescriptionTooLong)));
    let ok = Entity::new(1, "john".to_string(), "d".repeat(254));
    assert!(ok.is_ok());
}

#[test]
fn name_length_counts_bytes() {
    // 16 two-byte characters: 32 bytes
    let r = Entity::new(1, "é".repeat(16), "doe".to_string());
    assert!(matches!(r, Err(ValidationError::NameTooLong)));
}

#[test]
fn serialize_writes_exact_layout() {
    let e = entity(0x0102030405060708, "ab", "xyz");
    let b = e.serialize();
    assert_eq!(b.len(), 300);
    assert_eq!(b[0], 2);
    assert_eq!(b[1], 3);
    assert_eq!(&b[2..10], &[8, 7, 6, 5, 4, 3, 2, 1]);
    assert_eq!(&b[10..12], b"ab");
    assert!(b[12..42].iter().all(|x| *x == 0));
    assert_eq!(&b[42..45], b"xyz");
    assert!(b[45..300].iter().all(|x| *x == 0));
}

#[test]
fn round_trip_keeps_entity() {
    let cases = [
        (1u64, "", ""),
        (u64::MAX, "john", "doe"),
        (42, "héllo", "wörld"),
    ];
    for (id, name, description) in cases {
        let e = entity(id, name, description);
        let d = Entity::deserialize(&e.serialize()).unwrap();
        assert_eq!(d.id(), id);
        assert_eq!(d.user_name(), name);
        assert_eq!(d.description(), description);
    }
}

#[test]
fn round_trip_longest_fields() {
    let name = "n".repeat(31);
    let description = "d".repeat(254);
    let e = entity(7, &name, &description);
    let d = Entity::deserialize(&e.serialize()).unwrap();
    assert_eq!(d.id(), 7);
    assert_eq!(d.user_name(), name);
    assert_eq!(d.description(), description);
}

#[test]
fn deserialize_wrong_length() {
    let r = Entity::deserialize(&vec![0u8; 299]);
    assert!(matches!(r, Err(DecodeError::WrongLength)));
    let r = Entity::deserialize(&vec![0u8; 301]);
    assert!(matches!(r, Err(DecodeError::WrongLength)));
}

#[test]
fn deserialize_zero_record_is_invalid() {
    let r = Entity::deserialize(&vec![0u8; 300]);
    assert!(matches!(r, Err(DecodeError::Invalid(ValidationError::ZeroId))));
}

#[test]
fn deserialize_invalid_utf8_gives_empty_text() {
    let mut b = entity(5, "ab", "cd").serialize();
    b[10] = 0xff;
    let d = Entity::deserialize(&b).unwrap();
    assert_eq!(d.id(), 5);
    assert_eq!(d.user_name(), "");
    assert_eq!(d.description(), "cd");
    let (r, lost) = Entity::deserialize_reporting(&b);
    assert!(lost);
    assert_eq!(r.unwrap().user_name(), "");
}

#[test]
fn deserialize_reporting_valid_text() {
    let b = entity(5, "ab", "cd").serialize();
    let (r, lost) = Entity::deserialize_reporting(&b);
    assert!(!lost);
    assert_eq!(r.unwrap().user_name(), "ab");
}

#[test]
fn deserialize_long_name_is_invalid() {
    let mut b = entity(5, "ab", "cd").serialize();
    b[0] = 32;
    let r = Entity::deserialize(&b);
    assert!(matches!(r, Err(DecodeError::Invalid(ValidationError::NameTooLong))));
}
