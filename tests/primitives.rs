use offspring_registry::crypto::{ct_eq, push_be_bytes, push_bytes};
use offspring_registry::factory::msg::{RegisterOffspringInfo, StoreOffspringInfo};
use offspring_registry::viewing_key::ViewingKey;

#[test]
fn be_bytes_are_big_endian() {
    let mut v = vec![0xaau8];
    push_be_bytes(&mut v, 0x0102_0304_0506_0708);
    assert_eq!(v, vec![0xaa, 1, 2, 3, 4, 5, 6, 7, 8]);
}

#[test]
fn bytes_are_appended_in_order() {
    let mut v = vec![1u8];
    push_bytes(&mut v, &[2, 3]);
    assert_eq!(v, vec![1, 2, 3]);
}

#[test]
fn constant_time_compare_matches_equality() {
    let a = [7u8; 32];
    let mut b = a;
    assert!(ct_eq(&a, &b));
    b[0] = 8;
    assert!(!ct_eq(&a, &b));
    b = a;
    b[31] = 0;
    assert!(!ct_eq(&a, &b));
}

#[test]
fn viewing_key_hash_is_sha256_of_text() {
    let vk = ViewingKey("random_string_123".to_string());
    let expected: [u8; 32] = [
        167, 75, 46, 161, 27, 233, 254, 146, 245, 218, 2, 19, 171, 56, 78, 166, 42, 211, 88, 7,
        205, 191, 2, 6, 226, 158, 43, 144, 8, 149, 170, 164,
    ];
    assert_eq!(vk.to_hashed(), expected);
    assert!(vk.check_viewing_key(&expected));
    assert!(!vk.check_viewing_key(&[0u8; 32]));
}

#[test]
fn store_infos_carry_fields_over() {
    let reg = RegisterOffspringInfo { index: 3, label: "kid".to_string(), password: [1u8; 32] };
    let info: StoreOffspringInfo = reg.to_store_offspring_info("addr".to_string());
    assert_eq!(info.index, 3);
    assert_eq!(info.address, "addr");
    assert_eq!(info.label, "kid");
    let inactive = info.to_store_inactive_offspring_info();
    assert_eq!(inactive.index, 3);
    assert_eq!(inactive.address, "addr");
    assert_eq!(inactive.label, "kid");
}
