//! Secrets at rest: password hashing, key derivation, and the `v1:` text
//! encryption of stored credentials (AES-256-GCM with a random nonce, both
//! parts in base64).
use crate::error::{AppError, AppResult};
use crate::text::{
    append_str, chars_of, find_char, find_char_exec, lemma_find_char, starts_with, starts_with_str,
    string_of, subrange,
};
use aes_gcm::aead::{Aead, KeyInit, OsRng};
use aes_gcm::{Aes256Gcm, Nonce};
use argon2::password_hash::{PasswordHash, PasswordHasher, PasswordVerifier, SaltString};
use argon2::Argon2;
use base64::engine::general_purpose::STANDARD;
use base64::Engine;
use rand::RngCore;
use sha2::{Digest, Sha256};
use vstd::prelude::*;
use vstd::utf8::encode_utf8;

verus! {

broadcast use vstd::string::group_string_axioms;

// ---------------------------------------------------------------------------
// Outside primitives
// ---------------------------------------------------------------------------

/// The standard base64 text (RFC 4648 alphabet, padded) of some bytes.
pub uninterp spec fn base64_text(bytes: Seq<u8>) -> Seq<char>;

/// The bytes a standard base64 text decodes to, if it is valid.
pub uninterp spec fn base64_bytes(text: Seq<char>) -> Option<Seq<u8>>;

/// AES-256-GCM encryption of a plaintext under a key and a 96-bit nonce
/// (ciphertext followed by the tag).
pub uninterp spec fn aes_gcm_sealed(key: Seq<u8>, nonce: Seq<u8>, plaintext: Seq<u8>) -> Seq<u8>;

/// AES-256-GCM decryption: the plaintext when the tag authenticates.
pub uninterp spec fn aes_gcm_opened(key: Seq<u8>, nonce: Seq<u8>, ciphertext: Seq<u8>) -> Option<
    Seq<u8>,
>;

/// The SHA-256 digest of some bytes.
pub uninterp spec fn sha256_digest(data: Seq<u8>) -> Seq<u8>;

/// Whether Argon2 accepts a password for a PHC hash string; `None` when
/// the string is not a valid password hash.
pub uninterp spec fn argon2_accepts(password: Seq<char>, hash: Seq<char>) -> Option<bool>;

/// The characters of the standard base64 alphabet and its padding.
pub open spec fn is_base64_char(c: char) -> bool {
    ('A' <= c && c <= 'Z') || ('a' <= c && c <= 'z') || ('0' <= c && c <= '9') || c == '+' || c
        == '/' || c == '='
}

/// `base64::engine::general_purpose::STANDARD.encode`: the text uses only
/// the base64 alphabet, and decoding it gives the bytes back.
#[verifier::external_body]
pub(crate) fn base64_encode(bytes: &[u8]) -> (r: String)
    ensures
        r@ == base64_text(bytes@),
        base64_bytes(r@) == Some(bytes@),
        forall|i: int| 0 <= i < r@.len() ==> is_base64_char(#[trigger] r@[i]),
{
    STANDARD.encode(bytes)
}

/// `base64::engine::general_purpose::STANDARD.decode`, with the error
/// rendered as text.
#[verifier::external_body]
fn base64_decode(text: &str) -> (r: Result<Vec<u8>, String>)
    ensures
        match base64_bytes(text@) {
            Some(b) => r matches Ok(v) && v@ == b,
            None => r is Err,
        },
{
    STANDARD.decode(text).map_err(|err| err.to_string())
}

/// `Aes256Gcm::new_from_slice(key)` then `encrypt(nonce, plaintext)`.  It
/// fails only for plaintexts over 2^36 bytes; what it produces decrypts to
/// the plaintext under the same key and nonce.
#[verifier::external_body]
fn aes_gcm_encrypt(key: &[u8; 32], nonce: &[u8], plaintext: &[u8]) -> (r: Result<Vec<u8>, String>)
    requires
        nonce@.len() == 12,
    ensures
        plaintext@.len() <= 0x10_0000_0000 ==> r is Ok,
        r matches Ok(c) ==> c@ == aes_gcm_sealed(key@, nonce@, plaintext@) && aes_gcm_opened(
            key@,
            nonce@,
            c@,
        ) == Some(plaintext@),
{
    let cipher = Aes256Gcm::new_from_slice(key).map_err(|err| err.to_string())?;
    cipher.encrypt(Nonce::from_slice(nonce), plaintext).map_err(|err| err.to_string())
}

/// `Aes256Gcm::new_from_slice(key)` then `decrypt(nonce, ciphertext)`.
#[verifier::external_body]
fn aes_gcm_decrypt(key: &[u8; 32], nonce: &[u8], ciphertext: &[u8]) -> (r: Result<
    Vec<u8>,
    String,
>)
    requires
        nonce@.len() == 12,
    ensures
        match aes_gcm_opened(key@, nonce@, ciphertext@) {
            Some(p) => r matches Ok(v) && v@ == p,
            None => r is Err,
        },
{
    let cipher = Aes256Gcm::new_from_slice(key).map_err(|err| err.to_string())?;
    cipher.decrypt(Nonce::from_slice(nonce), ciphertext).map_err(|err| err.to_string())
}

/// `String::from_utf8`: succeeds exactly on the UTF-8 encodings of strings.
#[verifier::external_body]
fn string_from_utf8(bytes: Vec<u8>) -> (r: Result<String, String>)
    ensures
        r matches Ok(s) ==> encode_utf8(s@) == bytes@,
        (exists|s: Seq<char>| encode_utf8(s) == bytes@) ==> r is Ok,
{
    String::from_utf8(bytes).map_err(|err| err.to_string())
}

/// `sha2::Sha256::digest`.
#[verifier::external_body]
fn sha256(data: &[u8]) -> (r: [u8; 32])
    ensures
        r@ == sha256_digest(data@),
{
    Sha256::digest(data).into()
}

/// `len` bytes from the operating system's generator (`OsRng::fill_bytes`);
/// nothing is known of them but their number.
#[verifier::external_body]
fn random_bytes(len: usize) -> (r: Vec<u8>)
    ensures
        r@.len() == len,
{
    let mut bytes = vec![0u8; len];
    OsRng.fill_bytes(&mut bytes);
    bytes
}

/// `Argon2::default().hash_password` with a fresh random salt, as a PHC
/// string; Argon2 accepts the password for the hash it returns.
#[verifier::external_body]
fn argon2_hash(password: &str) -> (r: Result<String, String>)
    ensures
        r matches Ok(h) ==> argon2_accepts(password@, h@) == Some(true),
{
    let salt = SaltString::generate(&mut OsRng);
    Argon2::default().hash_password(password.as_bytes(), &salt).map(|hash| hash.to_string()).map_err(
        |err| err.to_string(),
    )
}

/// `PasswordHash::new(hash)` then `Argon2::default().verify_password`.
#[verifier::external_body]
fn argon2_verify(password: &str, hash: &str) -> (r: Result<bool, String>)
    ensures
        match argon2_accepts(password@, hash@) {
            Some(b) => r matches Ok(x) && x == b,
            None => r is Err,
        },
{
    let parsed = PasswordHash::new(hash).map_err(|err| err.to_string())?;
    Ok(Argon2::default().verify_password(password.as_bytes(), &parsed).is_ok())
}

// ---------------------------------------------------------------------------
// Passwords and keys
// ---------------------------------------------------------------------------

/// An Argon2 hash of the login password.
pub fn hash_password(password: &str) -> (r: AppResult<String>)
    ensures
        r matches Ok(h) ==> argon2_accepts(password@, h@) == Some(true),
        r matches Err(e) ==> e is Crypto,
{
    match argon2_hash(password) {
        Ok(h) => Ok(h),
        Err(m) => Err(AppError::Crypto(m)),
    }
}

/// Whether a password matches a stored Argon2 hash; an unreadable hash is
/// an error.
pub fn verify_password(password: &str, hash: &str) -> (r: AppResult<bool>)
    ensures
        match argon2_accepts(password@, hash@) {
            Some(b) => r matches Ok(x) && x == b,
            None => r matches Err(e) && e is Crypto,
        },
{
    match argon2_verify(password, hash) {
        Ok(b) => Ok(b),
        Err(m) => Err(AppError::Crypto(m)),
    }
}

/// The separator hashed between a password and its salt.
pub const KEY_DERIVATION_CONTEXT: &'static str = ":outlook-email-desktop:";

/// The key derived from a password: SHA-256 of the password, the context
/// string and the salt, in that order.
pub open spec fn derived_key(password: Seq<char>, salt: Seq<char>) -> Seq<u8> {
    sha256_digest(encode_utf8(password) + encode_utf8(KEY_DERIVATION_CONTEXT@) + encode_utf8(salt))
}

fn append_byte_slice(data: &mut Vec<u8>, bytes: &[u8])
    ensures
        final(data)@ == old(data)@ + bytes@,
{
    let mut i: usize = 0;
    while i < bytes.len()
        invariant
            0 <= i <= bytes.len(),
            data@ == old(data)@ + bytes@.take(i as int),
        decreases bytes.len() - i,
    {
        data.push(bytes[i]);
        assert(bytes@.take(i + 1) =~= bytes@.take(i as int).push(bytes@[i as int]));
        i = i + 1;
    }
    assert(bytes@.take(bytes.len() as int) =~= bytes@);
}

pub fn derive_key(password: &str, salt: &str) -> (r: [u8; 32])
    ensures
        r@ == derived_key(password@, salt@),
{
    let mut data: Vec<u8> = Vec::new();
    append_byte_slice(&mut data, password.as_bytes());
    append_byte_slice(&mut data, KEY_DERIVATION_CONTEXT.as_bytes());
    append_byte_slice(&mut data, salt.as_bytes());
    assert(data@ =~= encode_utf8(password@) + encode_utf8(KEY_DERIVATION_CONTEXT@) + encode_utf8(
        salt@,
    ));
    sha256(data.as_slice())
}

/// A fresh salt: 32 random bytes in base64.
pub fn random_salt() -> (r: String)
    ensures
        exists|b: Seq<u8>| b.len() == 32 && r@ == #[trigger] base64_text(b),
{
    let bytes = random_bytes(32);
    base64_encode(bytes.as_slice())
}

/// Lower-case hexadecimal digits of some bytes, two per byte.
pub open spec fn hex_digit(d: nat) -> char {
    if d < 10 {
        (('0' as nat) + d) as char
    } else {
        (('a' as nat) + d - 10) as char
    }
}

pub open spec fn lower_hex(bytes: Seq<u8>) -> Seq<char>
    decreases bytes.len(),
{
    if bytes.len() == 0 {
        Seq::empty()
    } else {
        lower_hex(bytes.drop_last()) + seq![
            hex_digit((bytes.last() / 16) as nat),
            hex_digit((bytes.last() % 16) as nat),
        ]
    }
}

fn hex_digit_exec(d: u8) -> (r: char)
    requires
        d < 16,
    ensures
        r == hex_digit(d as nat),
{
    if d < 10 {
        ((48 + d) as u8) as char
    } else {
        ((87 + d) as u8) as char
    }
}

/// The SHA-256 digest of some bytes in lower-case hexadecimal.
pub fn sha256_hex(data: &[u8]) -> (r: String)
    ensures
        r@ == lower_hex(sha256_digest(data@)),
{
    let digest = sha256(data);
    let mut out: Vec<char> = Vec::new();
    let mut i: usize = 0;
    while i < 32
        invariant
            0 <= i <= 32,
            digest@.len() == 32,
            out@ == lower_hex(digest@.take(i as int)),
        decreases 32 - i,
    {
        let b = digest[i];
        let ghost t = digest@.take(i + 1);
        assert(t.drop_last() =~= digest@.take(i as int));
        out.push(hex_digit_exec(b / 16));
        out.push(hex_digit_exec(b % 16));
        assert(out@ =~= lower_hex(t));
        i = i + 1;
    }
    assert(digest@.take(32) =~= digest@);
    string_of(&out)
}

/// The stored form of a share token: the hex SHA-256 of its bytes.
pub fn share_token_hash(token: &str) -> (r: String)
    ensures
        r@ == lower_hex(sha256_digest(encode_utf8(token@))),
{
    sha256_hex(token.as_bytes())
}

// ---------------------------------------------------------------------------
// Encrypted text
// ---------------------------------------------------------------------------

/// The nonce text of a `v1:` payload: everything before its first `:`.
pub open spec fn nonce_part(payload: Seq<char>) -> Seq<char> {
    match find_char(payload, ':') {
        Some(k) => payload.take(k),
        None => payload,
    }
}

/// The ciphertext text of a `v1:` payload: everything after its first `:`.
pub open spec fn cipher_part(payload: Seq<char>) -> Option<Seq<char>> {
    match find_char(payload, ':') {
        Some(k) => Some(payload.skip(k + 1)),
        None => None,
    }
}

/// Reading a stored value back.  Empty values and values without the `v1:`
/// prefix are taken as they are.  Otherwise the outcome is the plaintext, or
/// an error: `Err(Some(m))` with a message of the library's own, `Err(None)`
/// with the message of the failing outside call.
pub open spec fn decrypt_outcome(value: Seq<char>, key: Seq<u8>) -> Result<
    Seq<char>,
    Option<Seq<char>>,
> {
    if value.len() == 0 {
        Ok(Seq::empty())
    } else if !starts_with(value, "v1:"@) {
        Ok(value)
    } else {
        let payload = value.skip(3);
        match base64_bytes(nonce_part(payload)) {
            None => Err(None),
            Some(nonce) => match cipher_part(payload) {
                None => Err(Some("missing ciphertext"@)),
                Some(text) => match base64_bytes(text) {
                    None => Err(None),
                    Some(ct) => match aes_gcm_opened(key, nonce, ct) {
                        None => Err(None),
                        Some(pt) => if exists|s: Seq<char>| encode_utf8(s) == pt {
                            Ok(choose|s: Seq<char>| encode_utf8(s) == pt)
                        } else {
                            Err(None)
                        },
                    },
                },
            },
        }
    }
}

/// The values on which decryption reaches AES with a nonce that is not 96
/// bits long, where the cipher library panics.
pub open spec fn decrypt_nonce_invalid(value: Seq<char>) -> bool {
    &&& value.len() > 0
    &&& starts_with(value, "v1:"@)
    &&& base64_bytes(nonce_part(value.skip(3))) matches Some(nonce)
    &&& nonce.len() != 12
    &&& cipher_part(value.skip(3)) matches Some(text)
    &&& base64_bytes(text) is Some
}

/// Encrypts a secret for storage as `v1:<nonce>:<ciphertext>` with a fresh
/// random nonce; empty secrets stay empty.  Whatever it produces decrypts
/// back to the secret under the same key.
pub fn encrypt_text(value: &str, key: &[u8; 32]) -> (r: AppResult<String>)
    ensures
        value@.len() == 0 ==> (r matches Ok(t) && t@.len() == 0),
        encode_utf8(value@).len() <= 0x10_0000_0000 ==> r is Ok,
        r matches Ok(t) ==> decrypt_outcome(t@, key@) == Ok::<Seq<char>, Option<Seq<char>>>(value@)
            && !decrypt_nonce_invalid(t@),
        r matches Ok(t) ==> (value@.len() > 0 ==> exists|nonce: Seq<u8>|
            nonce.len() == 12 && t@ == "v1:"@ + base64_text(nonce) + ":"@ + base64_text(
                #[trigger] aes_gcm_sealed(key@, nonce, encode_utf8(value@)),
            )),
        r matches Err(e) ==> e is Crypto,
{
    if value.unicode_len() == 0 {
        assert(value@ =~= Seq::<char>::empty());
        let e = String::new();
        assert(e@ =~= Seq::<char>::empty());
        return Ok(e);
    }
    let nonce = random_bytes(12);
    let plaintext = value.as_bytes();
    let ciphertext = match aes_gcm_encrypt(key, nonce.as_slice(), plaintext) {
        Ok(c) => c,
        Err(m) => {
            return Err(AppError::Crypto(m));
        },
    };
    let nonce_text = base64_encode(nonce.as_slice());
    let cipher_text = base64_encode(ciphertext.as_slice());
    let mut out = chars_of("v1:");
    append_str(&mut out, nonce_text.as_str());
    out.push(':');
    append_str(&mut out, cipher_text.as_str());
    proof {
        reveal_strlit("v1:");
        reveal_strlit(":");
        let t = out@;
        let payload = nonce_text@ + seq![':'] + cipher_text@;
        assert(t =~= "v1:"@ + payload);
        assert(t.take(3) =~= "v1:"@);
        assert(t.skip(3) =~= payload);
        lemma_find_char(payload, ':');
        assert(payload[nonce_text@.len() as int] == ':');
        assert forall|j: int| 0 <= j < nonce_text@.len() implies payload[j] != ':' by {
            assert(payload[j] == nonce_text@[j]);
            assert(is_base64_char(nonce_text@[j]));
        }
        if find_char(payload, ':') != Some(nonce_text@.len() as int) {
            let k = find_char(payload, ':')->0;
            assert(k < nonce_text@.len());
            assert(payload[k] == ':');
        }
        assert(payload.take(nonce_text@.len() as int) =~= nonce_text@);
        assert(payload.skip(nonce_text@.len() as int + 1) =~= cipher_text@);
        vstd::utf8::encode_utf8_decode_utf8(value@);
        let pt = encode_utf8(value@);
        assert(encode_utf8(value@) == pt);
        let s = choose|s: Seq<char>| encode_utf8(s) == pt;
        vstd::utf8::encode_utf8_decode_utf8(s);
        assert(s == value@);
        assert(t == "v1:"@ + base64_text(nonce@) + ":"@ + base64_text(
            aes_gcm_sealed(key@, nonce@, encode_utf8(value@)),
        ));
    }
    Ok(string_of(&out))
}

/// Reads back a stored secret (see `decrypt_outcome`).
pub fn decrypt_text(value: &str, key: &[u8; 32]) -> (r: AppResult<String>)
    requires
        !decrypt_nonce_invalid(value@),
    ensures
        match decrypt_outcome(value@, key@) {
            Ok(s) => r matches Ok(x) && x@ == s,
            Err(Some(m)) => r matches Err(AppError::Crypto(x)) && x@ == m,
            Err(None) => r matches Err(e) && e is Crypto,
        },
{
    let v = chars_of(value);
    if v.len() == 0 {
        return Ok(String::new());
    }
    if !starts_with_str(&v, "v1:") {
        return Ok(string_of(&v));
    }
    proof {
        reveal_strlit("v1:");
    }
    let payload = subrange(&v, 3, v.len());
    assert(payload@ =~= value@.skip(3));
    proof {
        lemma_find_char(payload@, ':');
    }
    let colon = find_char_exec(&payload, ':');
    let nonce_chars = match colon {
        Some(k) => subrange(&payload, 0, k),
        None => subrange(&payload, 0, payload.len()),
    };
    assert(nonce_chars@ =~= nonce_part(payload@));
    let nonce = match base64_decode(string_of(&nonce_chars).as_str()) {
        Ok(n) => n,
        Err(m) => {
            return Err(AppError::Crypto(m));
        },
    };
    let cipher_chars = match colon {
        Some(k) => subrange(&payload, k + 1, payload.len()),
        None => {
            return Err(AppError::Crypto(string_of(&chars_of("missing ciphertext"))));
        },
    };
    assert(cipher_part(payload@) == Some(cipher_chars@));
    let ciphertext = match base64_decode(string_of(&cipher_chars).as_str()) {
        Ok(c) => c,
        Err(m) => {
            return Err(AppError::Crypto(m));
        },
    };
    let plaintext = match aes_gcm_decrypt(key, nonce.as_slice(), ciphertext.as_slice()) {
        Ok(p) => p,
        Err(m) => {
            return Err(AppError::Crypto(m));
        },
    };
    let ghost pt = plaintext@;
    match string_from_utf8(plaintext) {
        Ok(s) => {
            proof {
                let c = choose|x: Seq<char>| encode_utf8(x) == pt;
                vstd::utf8::encode_utf8_decode_utf8(c);
                vstd::utf8::encode_utf8_decode_utf8(s@);
            }
            Ok(s)
        },
        Err(m) => Err(AppError::Crypto(m)),
    }
}

/// `decrypt_text` on any stored value: `None` where the stored nonce has the
/// wrong length, the one case `decrypt_text` does not take.
pub fn decrypt_text_checked(value: &str, key: &[u8; 32]) -> (r: Option<AppResult<String>>)
    ensures
        decrypt_nonce_invalid(value@) <==> r is None,
        r matches Some(res) ==> match decrypt_outcome(value@, key@) {
            Ok(s) => res matches Ok(x) && x@ == s,
            Err(Some(m)) => res matches Err(AppError::Crypto(x)) && x@ == m,
            Err(None) => res matches Err(e) && e is Crypto,
        },
{
    let v = chars_of(value);
    if v.len() > 0 && starts_with_str(&v, "v1:") {
        proof {
            reveal_strlit("v1:");
        }
        let payload = subrange(&v, 3, v.len());
        assert(payload@ =~= value@.skip(3));
        proof {
            lemma_find_char(payload@, ':');
        }
        let colon = find_char_exec(&payload, ':');
        let nonce_chars = match colon {
            Some(k) => subrange(&payload, 0, k),
            None => subrange(&payload, 0, payload.len()),
        };
        assert(nonce_chars@ =~= nonce_part(payload@));
        match (base64_decode(string_of(&nonce_chars).as_str()), colon) {
            (Ok(nonce), Some(k)) => {
                let cipher_chars = subrange(&payload, k + 1, payload.len());
                assert(cipher_part(payload@) == Some(cipher_chars@));
                if nonce.len() != 12 {
                    match base64_decode(string_of(&cipher_chars).as_str()) {
                        Ok(_) => {
                            return None;
                        },
                        Err(_) => {},
                    }
                }
            },
            _ => {},
        }
    }
    Some(decrypt_text(value, key))
}

/// Re-encrypts a stored secret under a new key; empty values stay empty.
/// A value that decrypts under the old key, to a secret of at most 2^36
/// bytes, is re-encrypted; one that does not decrypt gives the decryption's
/// error.
pub fn reencrypt_secret_value(value: &str, old_key: &[u8; 32], new_key: &[u8; 32]) -> (r:
    AppResult<String>)
    requires
        !decrypt_nonce_invalid(value@),
    ensures
        value@.len() == 0 ==> (r matches Ok(t) && t@.len() == 0),
        decrypt_outcome(value@, old_key@) matches Ok(s) && encode_utf8(s).len() <= 0x10_0000_0000
            ==> r is Ok,
        r matches Ok(t) ==> decrypt_outcome(value@, old_key@) matches Ok(s) && decrypt_outcome(
            t@,
            new_key@,
        ) == Ok::<Seq<char>, Option<Seq<char>>>(s) && !decrypt_nonce_invalid(t@),
        match decrypt_outcome(value@, old_key@) {
            Ok(_) => r matches Err(e) ==> e is Crypto,
            Err(Some(m)) => r matches Err(AppError::Crypto(x)) && x@ == m,
            Err(None) => r matches Err(e) && e is Crypto,
        },
{
    if value.unicode_len() == 0 {
        return Ok(String::new());
    }
    let plaintext = match decrypt_text(value, old_key) {
        Ok(p) => p,
        Err(e) => {
            return Err(e);
        },
    };
    encrypt_text(plaintext.as_str(), new_key)
}

/// What a change of the login password stores: the new password's hash,
/// a new salt, and the workspace key wrapped under the new password.
#[derive(Debug, Clone)]
pub struct PasswordChange {
    pub hash: String,
    pub salt: String,
    pub workspace_key_enc: String,
}

/// Rewraps the workspace key for a new login password: the key unwrapped
/// with the current password is wrapped again under the new one, so that
/// the data it protects stays readable.  `None` where the stored wrapping
/// has a nonce the cipher does not take.
pub fn rewrap_workspace_key(
    workspace_key_enc: &str,
    current_password: &str,
    current_salt: &str,
    new_password: &str,
) -> (r: Option<AppResult<PasswordChange>>)
    ensures
        decrypt_nonce_invalid(workspace_key_enc@) <==> r is None,
        decrypt_outcome(workspace_key_enc@, derived_key(current_password@, current_salt@)) is Err
            && !decrypt_nonce_invalid(workspace_key_enc@) ==> (r matches Some(Err(e)) && e is Crypto),
        r matches Some(Ok(c)) ==> {
            &&& decrypt_outcome(workspace_key_enc@, derived_key(current_password@, current_salt@))
                matches Ok(key)
            &&& decrypt_outcome(c.workspace_key_enc@, derived_key(new_password@, c.salt@))
                == Ok::<Seq<char>, Option<Seq<char>>>(key)
            &&& argon2_accepts(new_password@, c.hash@) == Some(true)
        },
        r matches Some(Err(e)) ==> e is Crypto,
{
    let current_key = derive_key(current_password, current_salt);
    let workspace_key = match decrypt_text_checked(workspace_key_enc, &current_key) {
        None => {
            return None;
        },
        Some(Ok(k)) => k,
        Some(Err(e)) => {
            return Some(Err(e));
        },
    };
    let hash = match hash_password(new_password) {
        Ok(h) => h,
        Err(e) => {
            return Some(Err(e));
        },
    };
    let salt = random_salt();
    let new_key = derive_key(new_password, salt.as_str());
    match encrypt_text(workspace_key.as_str(), &new_key) {
        Ok(enc) => Some(Ok(PasswordChange { hash, salt, workspace_key_enc: enc })),
        Err(e) => Some(Err(e)),
    }
}

} // verus!
