//! The operations of the mobile client, each answering with plain text: an
//! empty text or `invalid` where the operation fails.

use vstd::prelude::*;
use crate::crypto::{argon2_verification, spec_argon2_hash, spec_decrypt_hex, utf8};
use crate::totp::Generator;

verus! {

broadcast use vstd::string::group_string_axioms;

/// The Argon2 hash, with a fresh 16-byte random salt, of `password_hash` as
/// it is (the client has hashed the password already); it verifies
/// `password_hash`.
pub fn hash_argon2_hashed(password_hash: &str) -> (res: String)
    requires
        utf8(password_hash@).len() <= u32::MAX,
    ensures
        exists|salt: Seq<u8>| salt.len() == 16 && res@ == #[trigger] spec_argon2_hash(utf8(password_hash@), salt),
        argon2_verification(res@, utf8(password_hash@)) == Some(true),
{
    let salt = crate::crypto::random(16);
    match crate::crypto::argon2_hash(password_hash.as_bytes(), salt.as_slice()) {
        Ok(h) => h,
        Err(_) => {
            assert(false);
            String::new()
        },
    }
}

/// `data` encrypted under `key` as hexadecimal text, or an empty text where
/// the key is not 32 bytes long or the data is too long to encrypt. What
/// comes back decrypts to `data`.
pub fn encrypt(key: &str, data: &str) -> (res: String)
    ensures
        utf8(key@).len() == 32 && utf8(data@).len() <= crate::crypto::aes_gcm_max_plaintext() ==> spec_decrypt_hex(
            res@,
            utf8(key@),
        ) == Ok::<Seq<char>, crate::error::Fail>(data@),
        !(utf8(key@).len() == 32 && utf8(data@).len() <= crate::crypto::aes_gcm_max_plaintext()) ==> res@
            == Seq::<char>::empty(),
{
    match crate::web::encrypt_hex(data, key) {
        Ok(h) => h,
        Err(_) => String::new(),
    }
}

/// The decryption of the hexadecimal text `data` under `key`, or an empty
/// text where it is no hexadecimal text or does not decrypt.
pub fn decrypt(key: &str, data: &str) -> (res: String)
    ensures
        res@ == match spec_decrypt_hex(data@, utf8(key@)) {
            Ok(s) => s,
            Err(_) => Seq::<char>::empty(),
        },
{
    match crate::web::decrypt_hex(data, key) {
        Ok(s) => s,
        Err(_) => String::new(),
    }
}

/// The six-digit HMAC-SHA1 token of the key `k` at UNIX time `time`.
pub open spec fn sha1_token(k: Seq<u8>, time: u64) -> Seq<char> {
    crate::totp::token_of_tag(crate::totp::hmac_tag(crate::totp::HmacAlgorithm::Sha1, k, crate::totp::be_bytes(time / 30)), 6)
}

/// `s` is the six-digit HMAC-SHA1 token of the key `k` at some time.
pub open spec fn is_sha1_token(k: Seq<u8>, s: Seq<char>) -> bool {
    exists|time: u64| s == #[trigger] sha1_token(k, time)
}

/// The current token of the Base32 `secret`, or `invalid` where the secret
/// is no Base32 text or the clock reads a time before the UNIX epoch.
pub fn generate_token(secret: &str) -> (res: String)
    requires
        secret@.len() <= 0x1000_0000_0000_0000,
    ensures
        crate::totp::base32_rfc4648_decoded(secret@) is None ==> res@ == "invalid"@,
        crate::totp::base32_rfc4648_decoded(secret@) matches Some(k) ==> (res@ == "invalid"@ || is_sha1_token(
            k,
            res@,
        )),
{
    match Generator::new(secret) {
        Ok(generator) => match generator.token() {
            Ok(token) => {
                proof {
                    let time = choose|time: u64| token@ == #[trigger] generator.spec_token_at(time);
                    assert(token@ == sha1_token(generator.secret(), time));
                    assert(is_sha1_token(generator.secret(), token@));
                }
                token
            },
            Err(_) => String::from_str("invalid"),
        },
        Err(_) => String::from_str("invalid"),
    }
}

} // verus!
