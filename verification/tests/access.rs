use core_nft::access::{
    construct_canonical_identity, readers_equal, resolve_readers, AccessControl, AccessRights,
    ReaderInfo, Readers,
};
use core_nft::keyed::KeyedMap;
use core_nft::principal::PrincipalId;

fn principal(bytes: &[u8]) -> PrincipalId {
    PrincipalId::from_bytes(bytes.to_vec()).unwrap()
}

fn info(rights: AccessRights, alias: Option<&str>) -> ReaderInfo {
    ReaderInfo { rights, alias: alias.map(|a| a.to_string()) }
}

#[test]
fn access_rights_allow_what_they_name() {
    assert!(AccessRights::Read.can_read());
    assert!(!AccessRights::Read.can_write());
    assert!(AccessRights::ReadWrite.can_write());
    assert!(!AccessRights::ReadWrite.can_set_user_rights());
    assert!(AccessRights::ReadWriteManage.can_get_user_rights());
    assert!(AccessRights::ReadWriteManage.can_set_user_rights());
    assert_eq!(AccessRights::owner_rights(), AccessRights::ReadWriteManage);
}

#[test]
fn access_rights_bytes_round_trip() {
    for r in [AccessRights::Read, AccessRights::ReadWrite, AccessRights::ReadWriteManage] {
        assert_eq!(AccessRights::from_byte(r.to_byte()), Some(r));
    }
    assert_eq!(AccessRights::ReadWriteManage.to_byte(), 2);
    assert_eq!(AccessRights::from_byte(3), None);
}

#[test]
fn entry_readers_override_defaults() {
    let mut defaults: Readers = KeyedMap::new();
    defaults.insert(principal(&[1]), info(AccessRights::Read, Some("d")));
    defaults.insert(principal(&[2]), info(AccessRights::Read, None));
    let mut entry: Readers = KeyedMap::new();
    entry.insert(principal(&[2]), info(AccessRights::ReadWrite, Some("e")));
    let r = resolve_readers(&entry, &defaults);
    assert_eq!(r.len(), 2);
    assert_eq!(r.get(&principal(&[1])).unwrap().rights, AccessRights::Read);
    let two = r.get(&principal(&[2])).unwrap();
    assert_eq!(two.rights, AccessRights::ReadWrite);
    assert_eq!(two.alias.as_deref(), Some("e"));
}

#[test]
fn readers_equal_compares_rights_and_aliases() {
    let mut a: Readers = KeyedMap::new();
    a.insert(principal(&[1]), info(AccessRights::Read, Some("x")));
    let mut b: Readers = KeyedMap::new();
    b.insert(principal(&[1]), info(AccessRights::Read, Some("x")));
    assert!(readers_equal(&a, &b));
    b.insert(principal(&[1]), info(AccessRights::Read, Some("y")));
    assert!(!readers_equal(&a, &b));
    b.insert(principal(&[1]), info(AccessRights::Read, Some("x")));
    b.insert(principal(&[3]), info(AccessRights::Read, None));
    assert!(!readers_equal(&a, &b));
}

#[test]
fn canonical_identity_sorts_principals_and_adds_the_owner_once() {
    let mut readers: Readers = KeyedMap::new();
    readers.insert(principal(&[3, 3]), info(AccessRights::Read, None));
    readers.insert(principal(&[1]), info(AccessRights::Read, None));
    let mut defaults: Readers = KeyedMap::new();
    defaults.insert(principal(&[2]), info(AccessRights::Read, None));
    let id = construct_canonical_identity(principal(&[2]), &readers, &defaults);
    let texts: Vec<String> = [vec![1u8], vec![2u8], vec![3u8, 3u8]]
        .iter()
        .map(|b| candid::Principal::from_slice(b).to_text())
        .collect();
    assert_eq!(id, texts.join(",").into_bytes());
    let alone = construct_canonical_identity(PrincipalId::management(), &KeyedMap::new(), &KeyedMap::new());
    assert_eq!(alone, b"aaaaa-aa".to_vec());
}
