use bladeworks::codec::{split_tenant_key, tenant_key_bytes, Decode, Encode, TenantKey};

#[test]
fn u64_encodes_big_endian() {
    assert_eq!(0x0102_0304_0506_0708u64.encode(), vec![1, 2, 3, 4, 5, 6, 7, 8]);
    assert_eq!(0u64.encode(), vec![0; 8]);
    assert_eq!(u64::MAX.encode(), vec![0xff; 8]);
}

#[test]
fn u64_decodes_big_endian() {
    assert_eq!(<u64 as Decode>::decode(&[0, 0, 0, 0, 0, 0, 1, 0]), Ok(256));
    assert_eq!(<u64 as Decode>::decode(&[0xff; 8]), Ok(u64::MAX));
}

#[test]
fn u64_roundtrip() {
    for x in [0u64, 1, 255, 256, 0xdead_beef, u64::MAX - 1, u64::MAX] {
        let bytes = x.encode();
        assert_eq!(<u64 as Decode>::decode(&bytes), Ok(x));
    }
}

#[test]
fn tenant_key_is_prefixed_by_tenant() {
    let key = TenantKey { id: 3, key: 0x10u64 };
    assert_eq!(
        key.encode(),
        vec![0, 0, 0, 0, 0, 0, 0, 3, 0, 0, 0, 0, 0, 0, 0, 0x10]
    );
}

#[test]
fn tenant_key_roundtrip() {
    let key = TenantKey { id: 7, key: 12345u64 };
    let bytes = key.clone().encode();
    let back = <TenantKey<u64> as Decode>::decode(&bytes).unwrap();
    assert_eq!(back.id, 7);
    assert_eq!(back.key, 12345);
}

#[test]
fn tenant_keys_of_different_tenants_differ() {
    let a = TenantKey { id: 1, key: 5u64 }.encode();
    let b = TenantKey { id: 2, key: 5u64 }.encode();
    assert_ne!(a, b);
}

#[test]
fn tenant_keys_sort_by_tenant() {
    let a = TenantKey { id: 1, key: u64::MAX }.encode();
    let b = TenantKey { id: 2, key: 0u64 }.encode();
    assert!(a < b);
    let c = TenantKey { id: 255, key: 0u64 }.encode();
    let d = TenantKey { id: 256, key: 0u64 }.encode();
    assert!(c < d);
}

#[test]
fn tenant_key_bytes_prefix_the_key() {
    assert_eq!(
        tenant_key_bytes(0x0102, &[9, 8, 7]),
        vec![0, 0, 0, 0, 0, 0, 1, 2, 9, 8, 7]
    );
    assert_eq!(tenant_key_bytes(5, &[]), vec![0, 0, 0, 0, 0, 0, 0, 5]);
}

#[test]
fn split_tenant_key_gives_back_tenant_and_key() {
    let bytes = tenant_key_bytes(300, &[1, 2, 3]);
    let (id, rest) = split_tenant_key(&bytes);
    assert_eq!(id, 300);
    assert_eq!(rest, &[1, 2, 3]);
    let (id, rest) = split_tenant_key(&[0xff; 8]);
    assert_eq!(id, u64::MAX);
    assert!(rest.is_empty());
}
