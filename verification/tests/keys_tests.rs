use xrayctl::cmd::install::keys_file_content;
use xrayctl::error::XrayError;
use xrayctl::utils::entities::KeyField;
use xrayctl::utils::keys::read_keys;

const X25519_NEW: &str = "PrivateKey: cPriv123\nPassword: pPub456\nHash32: zzz\n";
const X25519_OLD: &str = "Private key: oldPriv\nPublic key: oldPub\n";

#[test]
fn read_keys_reads_all_fields() {
    let content = format!("shortsid: abcd1234\nuuid: 1111-2222\n{}", X25519_NEW);
    let k = read_keys(&content).unwrap();
    assert_eq!(k.uuid, "1111-2222");
    assert_eq!(k.private_key, "cPriv123");
    assert_eq!(k.public_key, "pPub456");
    assert_eq!(k.short_id, "abcd1234");
}

#[test]
fn read_keys_accepts_older_key_names() {
    let content = format!("shortsid: s\nuuid: u\n{}", X25519_OLD);
    let k = read_keys(&content).unwrap();
    assert_eq!(k.private_key, "oldPriv");
    assert_eq!(k.public_key, "oldPub");
}

#[test]
fn read_keys_trims_lines_and_later_lines_win() {
    let content = "  uuid: first  \r\nuuid: second\r\n\tPrivateKey: a\nPassword: b\nshortsid: c";
    let k = read_keys(content).unwrap();
    assert_eq!(k.uuid, "second");
    assert_eq!(k.private_key, "a");
    assert_eq!(k.public_key, "b");
    assert_eq!(k.short_id, "c");
}

#[test]
fn read_keys_reports_first_missing_field() {
    let r = read_keys("PrivateKey: a\nPassword: b\nshortsid: c\n");
    assert!(matches!(r, Err(XrayError::MissingKey(KeyField::Uuid))));
    let r = read_keys("uuid: u\nPassword: b\n");
    assert!(matches!(r, Err(XrayError::MissingKey(KeyField::PrivateKey))));
    let r = read_keys("uuid: u\nPrivateKey: a\nshortsid: c\n");
    assert!(matches!(r, Err(XrayError::MissingKey(KeyField::PublicKey))));
    let r = read_keys("uuid: u\nPrivateKey: a\nPublic key: b\n");
    assert!(matches!(r, Err(XrayError::MissingKey(KeyField::ShortId))));
    let r = read_keys("");
    assert!(matches!(r, Err(XrayError::MissingKey(KeyField::Uuid))));
}

#[test]
fn read_keys_needs_the_space_after_the_colon() {
    let r = read_keys("uuid:u\nPrivateKey: a\nPassword: b\nshortsid: c\n");
    assert!(matches!(r, Err(XrayError::MissingKey(KeyField::Uuid))));
    // A trimmed "uuid: " line loses its space and sets nothing.
    let r = read_keys("uuid: \nPrivateKey: a\nPassword: b\nshortsid: c\n");
    assert!(matches!(r, Err(XrayError::MissingKey(KeyField::Uuid))));
}

#[test]
fn keys_file_content_layout() {
    let text = keys_file_content("abcd", "u-1", X25519_NEW);
    assert_eq!(
        text,
        "shortsid: abcd\nuuid: u-1\nPrivateKey: cPriv123\nPassword: pPub456\nHash32: zzz\n"
    );
}

#[test]
fn keys_file_reads_back_as_written() {
    let text = keys_file_content("0123456789abcdef", "9f1c-77aa", X25519_NEW);
    let k = read_keys(&text).unwrap();
    assert_eq!(k.short_id, "0123456789abcdef");
    assert_eq!(k.uuid, "9f1c-77aa");
    assert_eq!(k.private_key, "cPriv123");
    assert_eq!(k.public_key, "pPub456");
}

#[test]
fn keys_file_without_key_output_misses_private_key() {
    let text = keys_file_content("sid", "uid", "");
    let r = read_keys(&text);
    assert!(matches!(r, Err(XrayError::MissingKey(KeyField::PrivateKey))));
}
