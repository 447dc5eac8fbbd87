use std::str::FromStr;
use tg_trainer::ids::{format_uuid, parse_uuid};
use tg_trainer::models::Registration;

#[test]
fn hyphenated_form_matches_uuid_display() {
    assert_eq!(format_uuid(0xa1a2a3a4b1b2c1c2d1d2d3d4d5d6d7d8), "a1a2a3a4-b1b2-c1c2-d1d2-d3d4d5d6d7d8");
    assert_eq!(format_uuid(0), "00000000-0000-0000-0000-000000000000");
    for _ in 0..20 {
        let u = uuid::Uuid::new_v4();
        assert_eq!(format_uuid(u.as_u128()), u.to_string());
    }
}

#[test]
fn hyphenated_form_reads_back() {
    let id = 0x550e8400e29b41d4a716446655440000u128;
    assert_eq!(parse_uuid(&format_uuid(id)), Some(id));
    assert_eq!(parse_uuid("550e8400-e29b-41d4-a716-446655440000"), Some(id));
    assert_eq!(parse_uuid("not an id"), None);
    assert_eq!(uuid::Uuid::from_str(&format_uuid(u128::MAX)).unwrap().as_u128(), u128::MAX);
}

#[test]
fn new_registrations_get_random_version_four_ids() {
    let r = Registration::new_for("42".to_string(), 7);
    assert_eq!(r.user_id, "42");
    assert_eq!(r.training_id, 7);
    let u = uuid::Uuid::from_u128(r.id);
    assert_eq!(u.get_version_num(), 4);
    assert_eq!((r.id >> 76) & 0xf, 4);
    assert_eq!((r.id >> 62) & 0x3, 2);
    let other = Registration::new_for("42".to_string(), 7);
    assert_ne!(r.id, other.id);
}
