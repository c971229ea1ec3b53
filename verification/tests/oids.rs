use branchless::entry::{same_entry, FileMode, TreeEntry};
use branchless::oid::{parse_oid_bytes, MaybeZeroOid, NonZeroOid};
use branchless::text::to_hex;

fn non_zero(text: &str) -> NonZeroOid {
    match MaybeZeroOid::from_hex(text).unwrap() {
        MaybeZeroOid::NonZero(oid) => oid,
        MaybeZeroOid::Zero => panic!("zero id"),
    }
}

#[test]
fn an_id_is_written_as_it_was_read() {
    let text = "5c41c3d7e736911dbbd53d62c10292b9bc78f838";
    assert_eq!(non_zero(text).to_hex_string(), text);
    assert_eq!(
        non_zero("5C41C3D7E736911DBBD53D62C10292B9BC78F838").to_hex_string(),
        text
    );
    assert_eq!(MaybeZeroOid::from_hex(text).unwrap().to_hex_string(), text);
}

#[test]
fn the_zero_id_is_told_apart() {
    let zero = "0000000000000000000000000000000000000000";
    assert!(matches!(MaybeZeroOid::from_hex(zero), Some(MaybeZeroOid::Zero)));
    assert!(matches!(MaybeZeroOid::from_hex("0"), Some(MaybeZeroOid::Zero)));
    assert_eq!(MaybeZeroOid::from_hex(zero).unwrap().to_hex_string(), zero);
    assert!(matches!(MaybeZeroOid::from_bytes([0u8; 20]), MaybeZeroOid::Zero));
    let mut bytes = [0u8; 20];
    bytes[7] = 1;
    assert!(matches!(MaybeZeroOid::from_bytes(bytes), MaybeZeroOid::NonZero(_)));
}

#[test]
fn a_short_id_is_filled_up_with_zeros() {
    assert_eq!(
        non_zero("abc").to_hex_string(),
        "abc0000000000000000000000000000000000000"
    );
    assert_eq!(parse_oid_bytes(b"1").unwrap()[0], 0x10);
    assert_eq!(
        git2::Oid::from_str("abc").unwrap().to_string(),
        non_zero("abc").to_hex_string()
    );
}

#[test]
fn what_is_no_id_is_refused() {
    assert!(MaybeZeroOid::from_hex("").is_none());
    assert!(MaybeZeroOid::from_hex("xyz").is_none());
    assert!(MaybeZeroOid::from_hex("00000000000000000000000000000000000000000").is_none());
    assert!(MaybeZeroOid::from_hex("5c41c3d7e736911dbbd53d62c10292b9bc78f83g").is_none());
}

#[test]
fn ids_are_compared_by_their_bytes() {
    let a = non_zero("01");
    let b = non_zero("0100");
    let c = non_zero("02");
    assert!(a.equals(&b));
    assert!(!a.equals(&c));
    assert_eq!(a.as_bytes()[0], 1);
}

#[test]
fn bytes_in_hexadecimal() {
    assert_eq!(to_hex(&[0x00, 0x0f, 0xa5, 0xff]), b"000fa5ff".to_vec());
    assert_eq!(to_hex(&[]), b"".to_vec());
}

#[test]
fn file_modes_and_their_numbers() {
    for mode in [
        FileMode::Unreadable,
        FileMode::Tree,
        FileMode::Blob,
        FileMode::BlobExecutable,
        FileMode::Link,
        FileMode::Commit,
    ] {
        assert_eq!(FileMode::from_i32(mode.to_i32()), mode);
    }
    assert_eq!(FileMode::Blob.to_i32(), 0o100644);
    assert_eq!(FileMode::BlobExecutable.to_i32(), 0o100755);
    assert_eq!(FileMode::Tree.to_i32(), 0o040000);
    assert_eq!(FileMode::Link.to_i32(), 0o120000);
    assert_eq!(FileMode::Commit.to_i32(), 0o160000);
    assert_eq!(FileMode::from_i32(0o100664), FileMode::Unreadable);
    assert!(FileMode::Tree.is_tree());
    assert!(!FileMode::Blob.is_tree());
    assert_eq!(i32::from(git2::FileMode::Blob), FileMode::Blob.to_i32());
    assert_eq!(i32::from(git2::FileMode::Tree), FileMode::Tree.to_i32());
    assert_eq!(i32::from(git2::FileMode::Link), FileMode::Link.to_i32());
    assert_eq!(i32::from(git2::FileMode::Commit), FileMode::Commit.to_i32());
    assert_eq!(i32::from(git2::FileMode::BlobExecutable), FileMode::BlobExecutable.to_i32());
}

#[test]
fn entries_are_the_same_where_id_and_mode_are() {
    let a = TreeEntry { oid: non_zero("01"), mode: FileMode::Blob };
    let b = TreeEntry { oid: non_zero("01"), mode: FileMode::BlobExecutable };
    let c = TreeEntry { oid: non_zero("02"), mode: FileMode::Blob };
    assert!(a.equals(&a));
    assert!(!a.equals(&b));
    assert!(!a.equals(&c));
    assert!(same_entry(&None, &None));
    assert!(same_entry(&Some(a), &Some(a)));
    assert!(!same_entry(&Some(a), &None));
    assert!(!same_entry(&None, &Some(a)));
}
