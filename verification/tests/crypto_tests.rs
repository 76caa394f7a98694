use outlook_email::crypto::{
    decrypt_text, decrypt_text_checked, derive_key, encrypt_text, hash_password, random_salt,
    reencrypt_secret_value, share_token_hash, verify_password,
};
use outlook_email::error::AppError;

#[test]
fn encrypted_text_decrypts_back() {
    let key = derive_key("password", "salt");
    let secret = "refresh-token 令牌 ✓";
    let stored = encrypt_text(secret, &key).expect("encrypt");
    assert!(stored.starts_with("v1:"));
    assert_ne!(stored, secret);
    assert_eq!(decrypt_text(&stored, &key).expect("decrypt"), secret);
    let again = encrypt_text(secret, &key).expect("encrypt");
    assert_ne!(again, stored);
}

#[test]
fn empty_and_plain_values_pass_through() {
    let key = derive_key("p", "s");
    assert_eq!(encrypt_text("", &key).expect("empty"), "");
    assert_eq!(decrypt_text("", &key).expect("empty"), "");
    assert_eq!(decrypt_text("legacy-plain", &key).expect("plain"), "legacy-plain");
}

#[test]
fn wrong_key_and_damaged_values_fail() {
    let key = derive_key("p", "s");
    let other = derive_key("p", "t");
    let stored = encrypt_text("secret", &key).expect("encrypt");
    assert!(matches!(decrypt_text(&stored, &other), Err(AppError::Crypto(_))));
    match decrypt_text("v1:AAAAAAAAAAAAAAAA", &key) {
        Err(AppError::Crypto(message)) => assert_eq!(message, "missing ciphertext"),
        other => panic!("unexpected {:?}", other),
    }
    assert!(matches!(decrypt_text("v1:***:xyz", &key), Err(AppError::Crypto(_))));
    assert!(decrypt_text_checked("v1:AAAA:AAAA", &key).is_none());
    assert!(decrypt_text_checked(&stored, &key).is_some());
}

#[test]
fn reencryption_keeps_the_secret() {
    let old_key = derive_key("old", "s1");
    let new_key = derive_key("new", "s2");
    let stored = encrypt_text("token", &old_key).expect("encrypt");
    let moved = reencrypt_secret_value(&stored, &old_key, &new_key).expect("reencrypt");
    assert_eq!(decrypt_text(&moved, &new_key).expect("decrypt"), "token");
    assert_eq!(reencrypt_secret_value("", &old_key, &new_key).expect("empty"), "");
}

#[test]
fn derived_keys_depend_on_password_and_salt() {
    assert_eq!(derive_key("a", "b"), derive_key("a", "b"));
    assert_ne!(derive_key("a", "b"), derive_key("a", "c"));
    assert_ne!(derive_key("a", "b"), derive_key("b", "b"));
}

#[test]
fn password_hashes_verify() {
    let hash = hash_password("correct horse").expect("hash");
    assert!(verify_password("correct horse", &hash).expect("verify"));
    assert!(!verify_password("wrong", &hash).expect("verify"));
    assert!(matches!(verify_password("x", "not a hash"), Err(AppError::Crypto(_))));
}

#[test]
fn salts_and_share_tokens() {
    let a = random_salt();
    let b = random_salt();
    assert_eq!(a.len(), 44);
    assert_ne!(a, b);
    assert_eq!(
        share_token_hash("abc"),
        "ba7816bf8f01cfea414140de5dae2223b00361a396177a9cb410ff61f20015ad"
    );
}
