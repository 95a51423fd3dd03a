//! Password, PIN and name hashing, secure-storage encryption and random values.

use vstd::prelude::*;
use sha3::Digest;
use crate::hex::{hex_encode, spec_hex_encode};
use aes_gcm::aead::{Aead, KeyInit};
use crate::error::Fail;
use crate::text::{all_alnum, chars_of, is_alnum_char, string_from_utf8, string_of, string_push, utf8_text};

verus! {

broadcast use vstd::string::group_string_axioms;

/// What `sha3::Sha3_256` computes as the digest of `data`.
pub uninterp spec fn sha3_256_digest(data: Seq<u8>) -> Seq<u8>;

/// `sha3::Sha3_256::digest`: the SHA3-256 digest of `data`, which is 32 bytes
/// long. The digest itself is named, not stated.
#[verifier::external_body]
fn sha3_256(data: &[u8]) -> (res: Vec<u8>)
    ensures
        res@ == sha3_256_digest(data@),
        res@.len() == 32,
{
    sha3::Sha3_256::digest(data).to_vec()
}

/// `a` followed by `b`.
fn concat_bytes(a: &[u8], b: &[u8]) -> (res: Vec<u8>)
    ensures
        res@ == a@ + b@,
{
    let mut res: Vec<u8> = Vec::new();
    res.extend_from_slice(a);
    res.extend_from_slice(b);
    res
}

/// The characters of `s` from `from` up to `to`.
fn substring(s: &String, from: usize, to: usize) -> (res: String)
    requires
        from <= to <= s@.len(),
    ensures
        res@ == s@.subrange(from as int, to as int),
{
    let cs = chars_of(s.as_str());
    let mut part: Vec<char> = Vec::new();
    for i in from..to
        invariant
            cs@ == s@,
            from <= to <= cs@.len(),
            part@ == cs@.subrange(from as int, i as int),
    {
        part.push(cs[i]);
        assert(part@ =~= cs@.subrange(from as int, i + 1));
    }
    string_of(part.as_slice())
}

/// The UTF-8 bytes of a text.
pub open spec fn utf8(s: Seq<char>) -> Seq<u8> {
    vstd::utf8::encode_utf8(s)
}

/// Lowercase hexadecimal SHA3-256 digest of `data`.
pub open spec fn spec_hash(data: Seq<u8>) -> Seq<char> {
    spec_hex_encode(sha3_256_digest(data))
}

/// The digest of `prefix` followed by the hexadecimal digest of `data`.
pub open spec fn salted_rehash(prefix: Seq<char>, data: Seq<u8>) -> Seq<u8> {
    sha3_256_digest(utf8(prefix) + utf8(spec_hash(data)))
}

/// The first 32 hexadecimal digits of `full` for an input of even length,
/// the last 32 for one of odd length.
pub open spec fn pick_half(full: Seq<char>, input_len: nat) -> Seq<char> {
    if input_len % 2 != 0 {
        full.subrange(32, full.len() as int)
    } else {
        full.subrange(0, 32)
    }
}

/// `sha3-256("etopa" + sha3-256(password))`, hexadecimal.
pub open spec fn spec_hash_password(password: Seq<u8>) -> Seq<char> {
    spec_hex_encode(salted_rehash("etopa"@, password))
}

/// `sha3-256("etopa_secret" + sha3-256(name))`, hexadecimal.
pub open spec fn spec_hash_name(name: Seq<u8>) -> Seq<char> {
    spec_hex_encode(salted_rehash("etopa_secret"@, name))
}

/// Half of `sha3-256("secure_storage" + sha3-256(password))`, hexadecimal.
pub open spec fn spec_hash_key(password: Seq<u8>) -> Seq<char> {
    pick_half(spec_hex_encode(salted_rehash("secure_storage"@, password)), password.len())
}

/// Half of `sha3-256(sha3-256("etopan" + sha3-256("etopa_app_pin" + sha3-256(pin))))`,
/// hexadecimal; the inner digests are taken as raw bytes.
pub open spec fn spec_hash_pin(pin: Seq<u8>) -> Seq<char> {
    let inner = salted_rehash("etopa_app_pin"@, pin);
    let outer = sha3_256_digest(utf8("etopan"@) + inner);
    pick_half(spec_hex_encode(sha3_256_digest(outer)), pin.len())
}

/// Generates the password hash used by the API.
pub fn hash_password(password: &[u8]) -> (res: String)
    ensures
        res@ == spec_hash_password(password@),
        res@.len() == 64,
{
    let enc = hex_encode(sha3_256(password).as_slice());
    let buf = concat_bytes("etopa".as_bytes(), enc.as_str().as_bytes());
    hex_encode(sha3_256(buf.as_slice()).as_slice())
}

/// Generates the hash of a secret's name used by the API.
pub fn hash_name(name: &[u8]) -> (res: String)
    ensures
        res@ == spec_hash_name(name@),
        res@.len() == 64,
{
    let enc = hex_encode(sha3_256(name).as_slice());
    let buf = concat_bytes("etopa_secret".as_bytes(), enc.as_str().as_bytes());
    hex_encode(sha3_256(buf.as_slice()).as_slice())
}

/// Generates the key (32 hexadecimal digits) for secure-storage encryption:
/// the first half of the digest for a password of even length, the second
/// half for one of odd length.
pub fn hash_key(password: &[u8]) -> (res: String)
    ensures
        res@ == spec_hash_key(password@),
        res@.len() == 32,
        utf8(res@).len() == 32,
{
    let enc = hex_encode(sha3_256(password).as_slice());
    let buf = concat_bytes("secure_storage".as_bytes(), enc.as_str().as_bytes());
    let full = hex_encode(sha3_256(buf.as_slice()).as_slice());
    let res = if password.len() % 2 != 0 {
        substring(&full, 32, 64)
    } else {
        substring(&full, 0, 32)
    };
    proof {
        lemma_hex_half_key(full@, res@);
    }
    res
}

/// Half of a hexadecimal text is 32 bytes long as UTF-8 where it has 32
/// characters: a key for AES-256.
proof fn lemma_hex_half_key(full: Seq<char>, half: Seq<char>)
    requires
        exists|raw: Seq<u8>| full == #[trigger] spec_hex_encode(raw),
        full.len() == 64,
        half.len() == 32,
        half == full.subrange(0, 32) || half == full.subrange(32, full.len() as int),
    ensures
        utf8(half).len() == 32,
{
    let raw = choose|raw: Seq<u8>| full == #[trigger] spec_hex_encode(raw);
    crate::hex::lemma_hex_plain(raw);
    assert forall|i: int| 0 <= i < half.len() implies crate::data::plain_char(#[trigger] half[i]) by {
        if half == full.subrange(0, 32) {
            assert(half[i] == full[i]);
        } else {
            assert(half[i] == full[i + 32]);
        }
    }
    crate::data::lemma_plain_text(half);
    vstd::utf8::is_ascii_chars_encode_utf8(half);
}

/// Generates the key (32 hexadecimal digits) that encrypts the app's local
/// data from its PIN.
pub fn hash_pin(pin: &[u8]) -> (res: String)
    ensures
        res@ == spec_hash_pin(pin@),
        res@.len() == 32,
        utf8(res@).len() == 32,
{
    let enc = hex_encode(sha3_256(pin).as_slice());
    let buf = concat_bytes("etopa_app_pin".as_bytes(), enc.as_str().as_bytes());
    let inner = sha3_256(buf.as_slice());
    let buf = concat_bytes("etopan".as_bytes(), inner.as_slice());
    let outer = sha3_256(buf.as_slice());
    let full = hex_encode(sha3_256(outer.as_slice()).as_slice());
    let res = if pin.len() % 2 != 0 {
        substring(&full, 32, 64)
    } else {
        substring(&full, 0, 32)
    };
    proof {
        lemma_hex_half_key(full@, res@);
    }
    res
}

/// Lowercase hexadecimal SHA3-256 digest of `plaintext`.
pub fn hash(plaintext: &[u8]) -> (res: String)
    ensures
        res@ == spec_hash(plaintext@),
        res@.len() == 64,
{
    hex_encode(sha3_256(plaintext).as_slice())
}

/// The longest plaintext, in bytes, that AES-GCM encrypts.
pub open spec fn aes_gcm_max_plaintext() -> nat {
    0xF_FFFF_FFE0
}

/// What AES-256-GCM (`aes_gcm::Aes256Gcm`) gives when it encrypts
/// `plaintext` under `key` and `nonce`, tag appended, without associated data.
pub uninterp spec fn aes256gcm_sealed(key: Seq<u8>, nonce: Seq<u8>, plaintext: Seq<u8>) -> Seq<u8>;

/// What AES-256-GCM gives when it decrypts `ciphertext` (tag appended) under
/// `key` and `nonce`: `None` where the tag does not verify.
pub uninterp spec fn aes256gcm_opened(key: Seq<u8>, nonce: Seq<u8>, ciphertext: Seq<u8>) -> Option<Seq<u8>>;

/// `aes_gcm::Aes256Gcm::new_from_slice` and `Aead::encrypt`: the ciphertext
/// with its 16-byte tag, which decrypts back to `plaintext` under the same
/// key and nonce; `None` where `plaintext` is longer than AES-GCM allows. The
/// ciphertext itself is named, not stated.
#[verifier::external_body]
fn aes256gcm_encrypt(key: &[u8], nonce: &[u8], plaintext: &[u8]) -> (res: Option<Vec<u8>>)
    requires
        key@.len() == 32,
        nonce@.len() == 12,
    ensures
        res is Some <==> plaintext@.len() <= aes_gcm_max_plaintext(),
        res matches Some(c) ==> {
            &&& c@ == aes256gcm_sealed(key@, nonce@, plaintext@)
            &&& c@.len() == plaintext@.len() + 16
            &&& aes256gcm_opened(key@, nonce@, c@) == Some(plaintext@)
        },
{
    let cipher = aes_gcm::Aes256Gcm::new_from_slice(key).expect("32-byte key");
    cipher.encrypt(nonce.try_into().expect("12-byte nonce"), plaintext).ok()
}

/// `aes_gcm::Aes256Gcm::new_from_slice` and `Aead::decrypt`: the plaintext,
/// or `None` where the tag does not verify. The plaintext itself is named,
/// not stated.
#[verifier::external_body]
fn aes256gcm_decrypt(key: &[u8], nonce: &[u8], ciphertext: &[u8]) -> (res: Option<Vec<u8>>)
    requires
        key@.len() == 32,
        nonce@.len() == 12,
    ensures
        res is Some <==> aes256gcm_opened(key@, nonce@, ciphertext@) is Some,
        res matches Some(p) ==> aes256gcm_opened(key@, nonce@, ciphertext@) == Some(p@),
{
    let cipher = aes_gcm::Aes256Gcm::new_from_slice(key).expect("32-byte key");
    cipher.decrypt(nonce.try_into().expect("12-byte nonce"), ciphertext).ok()
}

/// What decrypting secure storage `raw` (a 12-byte nonce, then ciphertext)
/// under `key` gives: an error for a key that is not 32 bytes long, the text
/// `{}` for data of fewer than 13 bytes, else the decrypted UTF-8 text.
pub open spec fn spec_decrypt(raw: Seq<u8>, key: Seq<u8>) -> Result<Seq<char>, Fail> {
    if key.len() != 32 {
        Err(Fail::InvalidKeyLength)
    } else if raw.len() < 13 {
        Ok("{}"@)
    } else {
        match aes256gcm_opened(key, raw.take(12), raw.skip(12)) {
            None => Err(Fail::DecryptFailed),
            Some(plain) => match utf8_text(plain) {
                Some(text) => Ok(text),
                None => Err(crate::error::invalid_utf8(plain)),
            },
        }
    }
}

/// What decrypting the hexadecimal text `data` under `key` gives.
pub open spec fn spec_decrypt_hex(data: Seq<char>, key: Seq<u8>) -> Result<Seq<char>, Fail> {
    match crate::hex::spec_hex_decode(utf8(data)) {
        Err(e) => Err(Fail::Hex(e)),
        Ok(raw) => spec_decrypt(raw, key),
    }
}

/// Valid UTF-8 text read back from its bytes is the text itself.
pub proof fn lemma_utf8_roundtrip(s: Seq<char>)
    ensures
        utf8_text(utf8(s)) == Some(s),
{
    vstd::utf8::encode_utf8_valid_utf8(s);
    vstd::utf8::encode_utf8_decode_utf8(s);
}

/// `raw` is `data` encrypted under `key`: a 12-byte nonce followed by the
/// AES-256-GCM ciphertext of `data` under that nonce.
pub open spec fn is_encryption_of(raw: Seq<u8>, data: Seq<u8>, key: Seq<u8>) -> bool {
    &&& raw.len() == 12 + data.len() + 16
    &&& raw.skip(12) == aes256gcm_sealed(key, raw.take(12), data)
}

/// Decrypts secure storage: `raw_data` holds a 12-byte nonce followed by the
/// ciphertext; data too short to hold any ciphertext decrypts to `{}`.
pub fn decrypt(raw_data: &[u8], raw_key: &[u8]) -> (res: Result<String, Fail>)
    ensures
        res matches Ok(s) ==> spec_decrypt(raw_data@, raw_key@) == Ok::<Seq<char>, Fail>(s@),
        res matches Err(e) ==> spec_decrypt(raw_data@, raw_key@) == Err::<Seq<char>, Fail>(e),
{
    if raw_key.len() != 32 {
        return Err(Fail::InvalidKeyLength);
    }
    if raw_data.len() < 13 {
        proof {
            reveal_strlit("{}");
        }
        return Ok(String::from_str("{}"));
    }
    let mut nonce: Vec<u8> = Vec::new();
    let mut body: Vec<u8> = Vec::new();
    for i in 0..raw_data.len()
        invariant
            i <= 12 ==> nonce@ == raw_data@.take(i as int) && body@.len() == 0,
            i > 12 ==> nonce@ == raw_data@.take(12) && body@ == raw_data@.subrange(12, i as int),
    {
        if i < 12 {
            nonce.push(raw_data[i]);
            assert(nonce@ =~= raw_data@.take(i + 1));
        } else {
            body.push(raw_data[i]);
            assert(body@ =~= raw_data@.subrange(12, i + 1));
        }
    }
    assert(body@ =~= raw_data@.skip(12));
    match aes256gcm_decrypt(raw_key, nonce.as_slice(), body.as_slice()) {
        None => Err(Fail::DecryptFailed),
        Some(plain) => match string_from_utf8(plain) {
            Ok(text) => Ok(text),
            Err((valid_up_to, error_len)) => Err(Fail::InvalidUtf8 { valid_up_to, error_len }),
        },
    }
}

/// Encrypts secure storage under a fresh random nonce: the result is the
/// 12-byte nonce followed by the ciphertext, and it decrypts back to `data`.
pub fn encrypt(data: &[u8], raw_key: &[u8]) -> (res: Result<Vec<u8>, Fail>)
    ensures
        raw_key@.len() != 32 <==> res == Err::<Vec<u8>, Fail>(Fail::InvalidKeyLength),
        raw_key@.len() == 32 && data@.len() > aes_gcm_max_plaintext() <==> res
            == Err::<Vec<u8>, Fail>(Fail::EncryptFailed),
        raw_key@.len() == 32 && data@.len() <= aes_gcm_max_plaintext() ==> res is Ok,
        res matches Ok(raw) ==> {
            &&& is_encryption_of(raw@, data@, raw_key@)
            &&& spec_decrypt(raw@, raw_key@) == match utf8_text(data@) {
                Some(text) => Ok::<Seq<char>, Fail>(text),
                None => Err(crate::error::invalid_utf8(data@)),
            }
        },
{
    if raw_key.len() != 32 {
        return Err(Fail::InvalidKeyLength);
    }
    let mut raw = random(12);
    match aes256gcm_encrypt(raw_key, raw.as_slice(), data) {
        None => Err(Fail::EncryptFailed),
        Some(sealed) => {
            let ghost nonce = raw@;
            let mut sealed = sealed;
            raw.append(&mut sealed);
            assert(raw@.take(12) =~= nonce);
            assert(raw@.skip(12) =~= aes256gcm_sealed(raw_key@, nonce, data@));
            Ok(raw)
        },
    }
}

/// A random byte (`rand::random`).
#[verifier::external_body]
fn random_byte() -> u8 {
    rand::random::<u8>()
}

/// A random Latin letter or decimal digit (`rand::distr::Alphanumeric`
/// sampled with `rand::rng()`).
#[verifier::external_body]
fn random_alphanumeric() -> (c: char)
    ensures
        is_alnum_char(c),
{
    rand::Rng::sample(&mut rand::rng(), rand::distr::Alphanumeric) as char
}

/// `size` random bytes.
pub fn random(size: usize) -> (res: Vec<u8>)
    ensures
        res@.len() == size,
{
    let mut res: Vec<u8> = Vec::new();
    for i in 0..size
        invariant
            res@.len() == i,
    {
        res.push(random_byte());
    }
    res
}

/// A random string of `len` Latin letters and decimal digits.
pub fn random_an(len: usize) -> (res: String)
    ensures
        res@.len() == len,
        all_alnum(res@),
{
    let mut res = String::new();
    for i in 0..len
        invariant
            res@.len() == i,
            all_alnum(res@),
    {
        let c = random_alphanumeric();
        string_push(&mut res, c);
        assert(res@.last() == c);
    }
    res
}

#[verifier::external_type_specification]
#[verifier::external_body]
pub struct ExArgon2Error(argon2::Error);

/// What `argon2::hash_encoded` gives, in the PHC string format, for Argon2id
/// version 0x13 with these costs, no secret and no associated data.
pub uninterp spec fn argon2id_encoded(
    pwd: Seq<u8>,
    salt: Seq<u8>,
    mem_cost: u32,
    time_cost: u32,
    lanes: u32,
    hash_length: u32,
) -> Seq<char>;

/// What `argon2::verify_encoded` gives for `encoded` and `pwd`: `None` where
/// it fails, else whether `pwd` matches.
pub uninterp spec fn argon2_verification(encoded: Seq<char>, pwd: Seq<u8>) -> Option<bool>;

/// `argon2::hash_encoded` with Argon2id version 0x13, sequential lanes, no
/// secret and no associated data: fails exactly where the salt is shorter
/// than 8 bytes or a length does not fit in 32 bits; what it produces is
/// named, not stated, and `argon2::verify_encoded` accepts `pwd` against it.
#[verifier::external_body]
fn argon2id_hash_encoded(
    pwd: &[u8],
    salt: &[u8],
    mem_cost: u32,
    time_cost: u32,
    lanes: u32,
    hash_length: u32,
) -> (res: Result<String, argon2::Error>)
    requires
        1 <= lanes <= 0xFF_FFFF,
        8 * lanes <= mem_cost <= 0x20_0000,
        1 <= time_cost,
        4 <= hash_length,
    ensures
        res is Ok <==> (8 <= salt@.len() <= u32::MAX && pwd@.len() <= u32::MAX),
        res matches Ok(s) ==> {
            &&& s@ == argon2id_encoded(pwd@, salt@, mem_cost, time_cost, lanes, hash_length)
            &&& argon2_verification(s@, pwd@) == Some(true)
        },
{
    let config = argon2::Config {
        variant: argon2::Variant::Argon2id,
        ad: &[],
        hash_length,
        lanes,
        mem_cost,
        secret: &[],
        time_cost,
        version: argon2::Version::Version13,
        thread_mode: argon2::ThreadMode::Sequential,
    };
    argon2::hash_encoded(pwd, salt, &config)
}

/// `argon2::verify_encoded`: whether `pwd` matches the PHC string `encoded`,
/// or an error where `encoded` cannot be decoded. The outcome is named, not
/// stated.
#[verifier::external_body]
fn argon2_verify_encoded(encoded: &str, pwd: &[u8]) -> (res: Result<bool, argon2::Error>)
    ensures
        res is Ok <==> argon2_verification(encoded@, pwd@) is Some,
        res matches Ok(b) ==> argon2_verification(encoded@, pwd@) == Some(b),
{
    argon2::verify_encoded(encoded, pwd)
}

/// The Argon2id hash of `pwd` with `salt` in the PHC string format, with
/// 4096 KiB of memory, 3 passes, one lane and a 32-byte hash.
pub open spec fn spec_argon2_hash(pwd: Seq<u8>, salt: Seq<u8>) -> Seq<char> {
    argon2id_encoded(pwd, salt, 4096, 3, 1, 32)
}

/// Why Argon2 refuses `pwd` and `salt`, checked in the order in which
/// `rust-argon2` checks them: the password's length, then the salt's.
pub open spec fn argon2_refusal(pwd_len: nat, salt_len: nat) -> crate::error::Argon2Error {
    if pwd_len > u32::MAX {
        crate::error::Argon2Error::PwdTooLong
    } else if salt_len < 8 {
        crate::error::Argon2Error::SaltTooShort
    } else {
        crate::error::Argon2Error::SaltTooLong
    }
}

/// Generates an Argon2id password hash (4096 KiB, 3 passes, one lane,
/// 32-byte hash); it fails exactly where the salt is shorter than 8 bytes or
/// an input is longer than 32 bits can count, and the hash verifies `pwd`.
pub fn argon2_hash(pwd: &[u8], salt: &[u8]) -> (res: Result<String, Fail>)
    ensures
        res is Ok <==> (8 <= salt@.len() <= u32::MAX && pwd@.len() <= u32::MAX),
        res matches Ok(h) ==> h@ == spec_argon2_hash(pwd@, salt@) && argon2_verification(h@, pwd@)
            == Some(true),
        res matches Err(e) ==> e == Fail::Argon2Failed(argon2_refusal(pwd@.len(), salt@.len())),
{
    match argon2id_hash_encoded(pwd, salt, 4096, 3, 1, 32) {
        Ok(h) => Ok(h),
        Err(_) => {
            let why = if pwd.len() as u64 > 0xFFFF_FFFF {
                crate::error::Argon2Error::PwdTooLong
            } else if salt.len() < 8 {
                crate::error::Argon2Error::SaltTooShort
            } else {
                crate::error::Argon2Error::SaltTooLong
            };
            Err(Fail::Argon2Failed(why))
        },
    }
}

/// Verifies `pwd` against the Argon2 hash `encoded`; a hash that cannot be
/// decoded verifies nothing.
pub fn argon2_verify(encoded: &str, pwd: &[u8]) -> (res: bool)
    ensures
        res == (argon2_verification(encoded@, pwd@) == Some(true)),
{
    match argon2_verify_encoded(encoded, pwd) {
        Ok(b) => b,
        Err(_) => false,
    }
}

} // verus!
