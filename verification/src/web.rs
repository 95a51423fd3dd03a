//! The operations of the web client: hashing, hexadecimal encryption,
//! tokens, and the encrypted storage file of a user's secrets.

use vstd::prelude::*;
use crate::crypto::{
    argon2_verification, is_encryption_of, lemma_utf8_roundtrip, spec_argon2_hash, spec_decrypt,
    spec_decrypt_hex, spec_hash_key, spec_hash_name, spec_hash_password, utf8,
};
use crate::error::Fail;
use crate::hex::{lemma_hex_roundtrip, spec_hex_decode, spec_hex_encode, HexError};
use crate::totp::{base32_rfc4648_decoded, be_bytes, hmac_tag, token_of_tag, Generator, HmacAlgorithm};

verus! {

broadcast use vstd::string::group_string_axioms;

/// The password hash used by the API.
pub fn hash_password(password: &str) -> (res: String)
    ensures
        res@ == spec_hash_password(utf8(password@)),
        res@.len() == 64,
{
    crate::crypto::hash_password(password.as_bytes())
}

/// The key for secure-storage encryption.
pub fn hash_key(password: &str) -> (res: String)
    ensures
        res@ == spec_hash_key(utf8(password@)),
        res@.len() == 32,
        utf8(res@).len() == 32,
{
    crate::crypto::hash_key(password.as_bytes())
}

/// The hash of a secret's name used by the API.
pub fn hash_name(name: &str) -> (res: String)
    ensures
        res@ == spec_hash_name(utf8(name@)),
        res@.len() == 64,
{
    crate::crypto::hash_name(name.as_bytes())
}

/// The Argon2 hash, with a fresh 16-byte random salt, of the API password
/// hash of `password`; it verifies that password hash.
pub fn argon2_hash(password: &str) -> (res: String)
    ensures
        exists|salt: Seq<u8>|
            salt.len() == 16 && res@ == #[trigger] spec_argon2_hash(utf8(spec_hash_password(utf8(password@))), salt),
        argon2_verification(res@, utf8(spec_hash_password(utf8(password@)))) == Some(true),
{
    let salt = crate::crypto::random(16);
    let password_hash = crate::crypto::hash_password(password.as_bytes());
    let ghost hashed = password_hash@;
    assert(hashed == spec_hex_encode(crate::crypto::salted_rehash("etopa"@, utf8(password@))));
    assert(utf8(hashed).len() <= u32::MAX) by {
        lemma_hex_digest_bytes(crate::crypto::salted_rehash("etopa"@, utf8(password@)));
    }
    match crate::crypto::argon2_hash(password_hash.as_str().as_bytes(), salt.as_slice()) {
        Ok(h) => h,
        Err(_) => {
            assert(false);
            String::new()
        },
    }
}

/// The bytes of a hexadecimal text are as many as its digits.
proof fn lemma_hex_digest_bytes(digest: Seq<u8>)
    ensures
        utf8(spec_hex_encode(digest)).len() == 2 * digest.len(),
{
    let cs = spec_hex_encode(digest);
    assert(vstd::utf8::is_ascii_chars(cs)) by {
        assert forall|i: int| 0 <= i < cs.len() implies '\0' <= #[trigger] cs[i] <= '\u{7f}' by {
            let n = if i % 2 == 0 { (digest[i / 2] / 16) as int } else { (digest[i / 2] % 16) as int };
            assert(0 <= n < 16);
        }
    }
    vstd::utf8::is_ascii_chars_encode_utf8(cs);
}

/// Decodes the bytes of a hexadecimal text.
pub fn hex_decode(data: &str) -> (res: Result<Vec<u8>, HexError>)
    ensures
        res matches Ok(v) ==> spec_hex_decode(utf8(data@)) == Ok::<Seq<u8>, HexError>(v@),
        res matches Err(e) ==> spec_hex_decode(utf8(data@)) == Err::<Seq<u8>, HexError>(e),
{
    crate::hex::hex_decode(data.as_bytes())
}

/// Encodes bytes as lowercase hexadecimal.
pub fn hex_encode(data: &[u8]) -> (res: String)
    ensures
        res@ == spec_hex_encode(data@),
{
    crate::hex::hex_encode(data)
}

/// Decrypts storage data given as hexadecimal text.
pub fn decrypt_hex(data: &str, key: &str) -> (res: Result<String, Fail>)
    ensures
        res matches Ok(s) ==> spec_decrypt_hex(data@, utf8(key@)) == Ok::<Seq<char>, Fail>(s@),
        res matches Err(e) ==> spec_decrypt_hex(data@, utf8(key@)) == Err::<Seq<char>, Fail>(e),
{
    match crate::hex::hex_decode(data.as_bytes()) {
        Err(e) => Err(Fail::Hex(e)),
        Ok(raw) => crate::crypto::decrypt(raw.as_slice(), key.as_bytes()),
    }
}

/// Encrypts `data` under a fresh nonce and encodes the result as
/// hexadecimal; the result decrypts back to `data`.
pub fn encrypt_hex(data: &str, key: &str) -> (res: Result<String, Fail>)
    ensures
        utf8(key@).len() != 32 <==> res == Err::<String, Fail>(Fail::InvalidKeyLength),
        utf8(key@).len() == 32 && utf8(data@).len() <= crate::crypto::aes_gcm_max_plaintext() ==> res is Ok,
        utf8(key@).len() == 32 && utf8(data@).len() > crate::crypto::aes_gcm_max_plaintext() <==> res
            == Err::<String, Fail>(Fail::EncryptFailed),
        res matches Ok(h) ==> {
            &&& exists|raw: Seq<u8>| h@ == #[trigger] spec_hex_encode(raw) && is_encryption_of(raw, utf8(data@), utf8(key@))
            &&& spec_decrypt_hex(h@, utf8(key@)) == Ok::<Seq<char>, Fail>(data@)
        },
{
    match crate::crypto::encrypt(data.as_bytes(), key.as_bytes()) {
        Err(e) => Err(e),
        Ok(raw) => {
            let h = crate::hex::hex_encode(raw.as_slice());
            proof {
                lemma_hex_roundtrip(raw@);
                lemma_utf8_roundtrip(data@);
                assert(h@ == spec_hex_encode(raw@) && is_encryption_of(raw@, utf8(data@), utf8(key@)));
            }
            Ok(h)
        },
    }
}

/// The token of `secret` at `time_millis` (milliseconds since the UNIX
/// epoch), or `invalid secret` for a secret that is no Base32 text.
pub fn gen_token(secret: &str, time_millis: u64) -> (res: String)
    requires
        secret@.len() <= 0x1000_0000_0000_0000,
    ensures
        base32_rfc4648_decoded(secret@) matches Some(k) ==> res@ == token_of_tag(
            hmac_tag(HmacAlgorithm::Sha1, k, be_bytes(time_millis / 1000 / 30)),
            6,
        ),
        base32_rfc4648_decoded(secret@) is None ==> res@ == "invalid secret"@,
{
    match Generator::new(secret) {
        Ok(generator) => match generator.token_at(time_millis / 1000) {
            Ok(token) => token,
            Err(_) => String::new(),
        },
        Err(_) => String::from_str("invalid secret"),
    }
}

/// The keys of a storage file whose values are encrypted: those ending in
/// `_secret` or `_secret_name`, and `secrets_sort`.
pub open spec fn is_encrypted_key(k: Seq<char>) -> bool {
    "_secret"@.is_suffix_of(k) || "_secret_name"@.is_suffix_of(k) || k == "secrets_sort"@
}

/// What reading the value `v` of key `k` gives: its decryption where the key
/// is an encrypted one, else `v` itself.
pub open spec fn decrypt_entry(k: Seq<char>, v: Seq<char>, key: Seq<u8>) -> Result<Seq<char>, Fail> {
    if is_encrypted_key(k) {
        spec_decrypt_hex(v, key)
    } else {
        Ok(v)
    }
}

/// The value that reading `v` of `k` gives where it succeeds.
pub open spec fn decrypted_value(k: Seq<char>, v: Seq<char>, key: Seq<u8>) -> Seq<char> {
    match decrypt_entry(k, v, key) {
        Ok(t) => t,
        Err(_) => v,
    }
}

/// The text of a storage file as the web client receives it: its last two
/// bytes (the final line break) cut off, read as UTF-8.
pub open spec fn storage_text(data: Seq<u8>) -> Option<Seq<char>> {
    crate::text::utf8_text(storage_bytes(data))
}

/// The bytes of a storage file as the web client receives it, without its
/// last two bytes (the final line break).
pub open spec fn storage_bytes(data: Seq<u8>) -> Seq<u8> {
    if data.len() > 1 {
        data.take(data.len() - 2)
    } else {
        data
    }
}

/// What the web client reads from the storage text `text` under `key`: its
/// entries, the encrypted ones decrypted, and the whole text under `data`.
pub open spec fn read_back(text: Seq<char>, key: Seq<u8>) -> Map<Seq<char>, Seq<char>> {
    crate::data::spec_parse(text).map_entries(|k: Seq<char>, v: Seq<char>| decrypted_value(k, v, key)).insert(
        "data"@,
        text,
    )
}

/// Whether `k` names an encrypted value.
fn encrypted_key(k: &str) -> (res: bool)
    ensures
        res == is_encrypted_key(k@),
{
    let cs = crate::text::chars_of(k);
    let secret = crate::text::chars_of("_secret");
    let secret_name = crate::text::chars_of("_secret_name");
    let sort = crate::text::chars_of("secrets_sort");
    crate::text::ends_with(cs.as_slice(), secret.as_slice()) || crate::text::ends_with(
        cs.as_slice(),
        secret_name.as_slice(),
    ) || crate::map::text_eq(cs.as_slice(), sort.as_slice())
}

/// Reads a storage file: drops its final line break, parses its lines, and
/// decrypts the values of the secrets, their names and their order; the whole
/// text is added under `data`.
pub fn parse_storage(data: Vec<u8>, key: &str) -> (res: Result<crate::map::StrMap<String>, Fail>)
    ensures
        storage_text(data@) is None ==> (res matches Err(e) && e == crate::error::invalid_utf8(
            storage_bytes(data@),
        )),
        storage_text(data@) matches Some(text) ==> {
            let m = crate::data::spec_parse(text);
            &&& res is Ok <==> forall|k: Seq<char>|
                #[trigger] m.contains_key(k) ==> decrypt_entry(k, m[k], utf8(key@)) is Ok
            &&& res matches Ok(r) ==> r@ == read_back(text, utf8(key@))
        },
{
    let ghost received = data@;
    let mut bytes = data;
    if bytes.len() > 1 {
        let n = bytes.len() - 2;
        bytes.truncate(n);
    }
    assert(bytes@ == storage_bytes(received));
    let text = match crate::text::string_from_utf8(bytes) {
        Ok(t) => t,
        Err((valid_up_to, error_len)) => {
            return Err(Fail::InvalidUtf8 { valid_up_to, error_len });
        },
    };
    assert(storage_text(received) == Some(text@));
    let map = crate::data::parse(text.as_str());
    let ghost m = map@;
    let ghost p = map.pairs();
    let ghost f = |k: Seq<char>, v: Seq<char>| decrypted_value(k, v, utf8(key@));
    let mut result: crate::map::StrMap<String> = crate::map::StrMap::new();
    let n = map.len();
    assert(crate::map::map_of(p.take(0)) =~= Map::<Seq<char>, Seq<char>>::empty());
    assert(result@ =~= crate::map::map_of(p.take(0)).map_entries(f));
    for i in 0..n
        invariant
            n == p.len(),
            p == map.pairs(),
            m == map@,
            storage_text(received) == Some(text@),
            received == data@,
            m == crate::data::spec_parse(text@),
            m == crate::map::map_of(p),
            crate::map::keys_ascending(p),
            f == (|k: Seq<char>, v: Seq<char>| decrypted_value(k, v, utf8(key@))),
            result@ == crate::map::map_of(p.take(i as int)).map_entries(f),
            forall|j: int| 0 <= j < i ==> #[trigger] decrypt_entry(p[j].0, p[j].1, utf8(key@)) is Ok,
    {
        let (k, v) = map.entry_at(i);
        let value = if encrypted_key(k.as_str()) {
            match decrypt_hex(v.as_str(), key) {
                Ok(t) => t,
                Err(e) => {
                    proof {
                        crate::map::lemma_map_of_index(p, i as int);
                        assert(m.contains_key(p[i as int].0));
                        assert(decrypt_entry(p[i as int].0, m[p[i as int].0], utf8(key@)) is Err);
                    }
                    return Err(e);
                },
            }
        } else {
            v.clone()
        };
        assert(value@ == f(p[i as int].0, p[i as int].1));
        let ghost before = result@;
        result.insert(k.clone(), value);
        proof {
            assert(p.take(i + 1).drop_last() =~= p.take(i as int));
            assert(p.take(i + 1).last() == p[i as int]);
            assert(result@ =~= crate::map::map_of(p.take(i + 1)).map_entries(f));
        }
    }
    assert(p.take(n as int) =~= p);
    proof {
        assert forall|k: Seq<char>| #[trigger] m.contains_key(k) implies decrypt_entry(k, m[k], utf8(key@)) is Ok by {
            crate::map::lemma_map_of_dom(p, k);
            let j = choose|j: int| 0 <= j < p.len() && #[trigger] p[j].0 == k;
            crate::map::lemma_map_of_index(p, j);
        }
    }
    result.insert(String::from_str("data"), text);
    Ok(result)
}

/// The hash under which the secret named `name` is stored.
pub open spec fn stored_name(name: Seq<char>) -> Seq<char> {
    spec_hash_name(utf8(name))
}

/// `x` is one of the two keys under which the secret named `name` is
/// stored: the hash of the name followed by `_secret` (the value) or by
/// `_secret_name` (the name).
pub open spec fn secret_slot(x: Seq<char>, name: Seq<char>) -> bool {
    x == crate::api::spec_secret_key(stored_name(name)) || x == crate::api::spec_secret_name_key(stored_name(name))
}

/// Under the two keys of the hash `h`, `m` holds `value` and `name`, each
/// encrypted with `key`.
pub open spec fn decrypts_to(
    m: Map<Seq<char>, Seq<char>>,
    h: Seq<char>,
    key: Seq<u8>,
    value: Seq<char>,
    name: Seq<char>,
) -> bool {
    &&& spec_decrypt_hex(m[crate::api::spec_secret_key(h)], key) == Ok::<Seq<char>, Fail>(value)
    &&& spec_decrypt_hex(m[crate::api::spec_secret_name_key(h)], key) == Ok::<Seq<char>, Fail>(name)
}

/// `m` holds the secret named `name` of `storage`: under the hash of the
/// name, the encrypted value and the encrypted name of a secret of `storage`
/// whose name has that hash.
pub open spec fn holds_secret(
    m: Map<Seq<char>, Seq<char>>,
    storage: Map<Seq<char>, Seq<char>>,
    key: Seq<u8>,
    name: Seq<char>,
) -> bool {
    &&& m.contains_key(crate::api::spec_secret_key(stored_name(name)))
    &&& m.contains_key(crate::api::spec_secret_name_key(stored_name(name)))
    &&& exists|other: Seq<char>|
        storage.contains_key(other) && stored_name(other) == stored_name(name) && #[trigger] decrypts_to(
            m,
            stored_name(name),
            key,
            storage[other],
            other,
        )
}

/// `m` is the encrypted storage map of `storage` and `sort` under `key`: the
/// order under `secrets_sort`, each secret under the hash of its name, and
/// nothing else.
pub open spec fn encodes_storage(
    m: Map<Seq<char>, Seq<char>>,
    storage: Map<Seq<char>, Seq<char>>,
    sort: Seq<char>,
    key: Seq<u8>,
) -> bool {
    &&& m.contains_key("secrets_sort"@)
    &&& spec_decrypt_hex(m["secrets_sort"@], key) == Ok::<Seq<char>, Fail>(sort)
    &&& forall|name: Seq<char>| #[trigger] storage.contains_key(name) ==> holds_secret(m, storage, key, name)
    &&& forall|x: Seq<char>|
        #[trigger] m.contains_key(x) ==> x == "secrets_sort"@ || exists|name: Seq<char>|
            storage.contains_key(name) && #[trigger] secret_slot(x, name)
}

/// Both the name and the value of the entry `e` can be encrypted.
spec fn entry_fits(e: (Seq<char>, Seq<char>)) -> bool {
    utf8(e.0).len() <= crate::crypto::aes_gcm_max_plaintext() && utf8(e.1).len()
        <= crate::crypto::aes_gcm_max_plaintext()
}

/// `text` is the storage file of the pairs `p`, in ascending key order and
/// each of them written so that it reads back unchanged, and the map of `p`
/// encrypts `storage` and `sort` under `key`.
pub open spec fn storage_file_of(
    p: Seq<(Seq<char>, Seq<char>)>,
    storage: Map<Seq<char>, Seq<char>>,
    sort: Seq<char>,
    key: Seq<u8>,
    text: Seq<char>,
) -> bool {
    &&& crate::map::keys_ascending(p)
    &&& crate::data::storable_pairs(p)
    &&& text == crate::data::serialize_pairs(p)
    &&& encodes_storage(crate::map::map_of(p), storage, sort, key)
}

/// `text` is a storage file that encrypts the secrets `storage` and their
/// order `sort` under `key`.
pub open spec fn serialized_storage(
    storage: Map<Seq<char>, Seq<char>>,
    sort: Seq<char>,
    key: Seq<u8>,
    text: Seq<char>,
) -> bool {
    exists|p: Seq<(Seq<char>, Seq<char>)>| #[trigger] storage_file_of(p, storage, sort, key, text)
}

/// The key `k` as a storage file reads it back: lowercased, which leaves the
/// keys that this library writes as they are.
fn storage_key(k: String) -> (res: String)
    requires
        forall|i: int| 0 <= i < k@.len() ==> crate::data::plain_char(#[trigger] k@[i]),
    ensures
        res@ == k@,
        crate::data::storable_key(res@),
{
    proof {
        crate::data::lemma_plain_text(k@);
    }
    crate::text::to_lowercase(k.as_str())
}

/// The two keys of a secret whose name hashes to the plain text `h` are
/// plain.
proof fn lemma_slots_plain(h: Seq<char>)
    requires
        forall|i: int| 0 <= i < h.len() ==> crate::data::plain_char(#[trigger] h[i]),
    ensures
        forall|i: int|
            0 <= i < crate::api::spec_secret_key(h).len() ==> crate::data::plain_char(
                #[trigger] crate::api::spec_secret_key(h)[i],
            ),
        forall|i: int|
            0 <= i < crate::api::spec_secret_name_key(h).len() ==> crate::data::plain_char(
                #[trigger] crate::api::spec_secret_name_key(h)[i],
            ),
{
    reveal_strlit("_secret");
    reveal_strlit("_secret_name");
    let a = crate::api::spec_secret_key(h);
    let b = crate::api::spec_secret_name_key(h);
    assert forall|i: int| 0 <= i < a.len() implies crate::data::plain_char(#[trigger] a[i]) by {
        if i >= h.len() {
            assert(a[i] == "_secret"@[i - h.len()]);
        }
    }
    assert forall|i: int| 0 <= i < b.len() implies crate::data::plain_char(#[trigger] b[i]) by {
        if i >= h.len() {
            assert(b[i] == "_secret_name"@[i - h.len()]);
        }
    }
}

/// A hexadecimal text reads back from a storage file unchanged.
proof fn lemma_hex_storable(t: Seq<char>)
    requires
        exists|raw: Seq<u8>| t == #[trigger] spec_hex_encode(raw),
    ensures
        crate::data::storable_value(t),
{
    let raw = choose|raw: Seq<u8>| t == #[trigger] spec_hex_encode(raw);
    crate::hex::lemma_hex_plain(raw);
    crate::data::lemma_plain_text(t);
}

/// `a + s == b + s` only where `a == b`.
proof fn lemma_suffix_cancel(a: Seq<char>, b: Seq<char>, s: Seq<char>)
    requires
        a + s == b + s,
    ensures
        a == b,
{
    assert((a + s).len() == a.len() + s.len());
    assert((b + s).len() == b.len() + s.len());
    assert(a.len() == b.len());
    assert(a =~= (a + s).take(a.len() as int));
    assert(b =~= (b + s).take(b.len() as int));
}

/// Encrypts the secrets of `storage` (name to value) and their order `sort`
/// under `key` into a storage file: each secret is stored under the hash of
/// its name, as its encrypted value and its encrypted name, and the order
/// under `secrets_sort`.
pub fn serialize_storage(storage: &crate::map::StrMap<String>, sort: &str, key: &str) -> (res: Result<String, Fail>)
    ensures
        utf8(key@).len() != 32 ==> res == Err::<String, Fail>(Fail::InvalidKeyLength),
        res is Ok <==> utf8(key@).len() == 32 && utf8(sort@).len() <= crate::crypto::aes_gcm_max_plaintext()
            && forall|name: Seq<char>|
            #[trigger] storage@.contains_key(name) ==> utf8(name).len() <= crate::crypto::aes_gcm_max_plaintext()
                && utf8(storage@[name]).len() <= crate::crypto::aes_gcm_max_plaintext(),
        res matches Err(e) ==> e == Fail::InvalidKeyLength || e == Fail::EncryptFailed,
        res matches Ok(text) ==> serialized_storage(storage@, sort@, utf8(key@), text@),
{
    let ghost p = storage.pairs();
    let ghost kb = utf8(key@);
    let ghost max = crate::crypto::aes_gcm_max_plaintext();
    if key.as_bytes().len() != 32 {
        return Err(Fail::InvalidKeyLength);
    }
    let mut out: crate::map::StrMap<String> = crate::map::StrMap::new();
    let n = storage.len();
    proof {
        reveal(secrets_covered);
        reveal(keys_accounted);
    }
    for i in 0..n
        invariant
            n == p.len(),
            p == storage.pairs(),
            storage@ == crate::map::map_of(p),
            crate::map::keys_ascending(p),
            kb == utf8(key@),
            kb.len() == 32,
            max == crate::crypto::aes_gcm_max_plaintext(),
            forall|j: int| 0 <= j < i ==> #[trigger] entry_fits(p[j]),
            forall|j: int| 0 <= j < i ==> (#[trigger] stored_name(p[j].0)).len() == 64,
            secrets_covered(out@, p, i as int, kb),
            keys_accounted(out@, p, i as int),
            forall|x: Seq<char>|
                #[trigger] out@.contains_key(x) ==> crate::data::storable_key(x) && crate::data::storable_value(
                    out@[x],
                ),
    {
        let (k, v) = storage.entry_at(i);
        proof {
            crate::map::lemma_map_of_index(p, i as int);
        }
        let h = hash_name(k.as_str());
        assert(stored_name(p[i as int].0).len() == 64);
        let enc_secret = match encrypt_hex(v.as_str(), key) {
            Ok(x) => x,
            Err(e) => {
                return Err(e);
            },
        };
        assert(utf8(p[i as int].1).len() <= max);
        let enc_name = match encrypt_hex(k.as_str(), key) {
            Ok(x) => x,
            Err(e) => {
                return Err(e);
            },
        };
        assert(utf8(p[i as int].0).len() <= max);
        let ghost before = out@;
        proof {
            crate::hex::lemma_hex_plain(crate::crypto::salted_rehash("etopa_secret"@, utf8(k@)));
            lemma_slots_plain(h@);
            lemma_hex_storable(enc_secret@);
            lemma_hex_storable(enc_name@);
        }
        let sk = storage_key(crate::api::secret_key(h.as_str()));
        let snk = storage_key(crate::api::secret_name_key(h.as_str()));
        out.insert(sk, enc_secret);
        out.insert(snk, enc_name);
        proof {
            lemma_encode_step(before, out@, p, i as int, kb, enc_secret@, enc_name@);
            assert(entry_fits(p[i as int]));
        }
    }
    let enc_sort = match encrypt_hex(sort, key) {
        Ok(x) => x,
        Err(e) => {
            return Err(e);
        },
    };
    let ghost before = out@;
    proof {
        reveal_strlit("secrets_sort");
        assert forall|i: int| 0 <= i < "secrets_sort"@.len() implies crate::data::plain_char(
            #[trigger] "secrets_sort"@[i],
        ) by {}
        lemma_hex_storable(enc_sort@);
    }
    let sort_key = storage_key(String::from_str("secrets_sort"));
    out.insert(sort_key, enc_sort);
    let text = crate::data::serialize(&out);
    let ghost q = out.pairs();
    proof {
        assert forall|name: Seq<char>| #[trigger] storage@.contains_key(name) implies utf8(name).len() <= max
            && utf8(storage@[name]).len() <= max by {
            crate::map::lemma_map_of_dom(p, name);
            let j = choose|j: int| 0 <= j < p.len() && #[trigger] p[j].0 == name;
            crate::map::lemma_map_of_index(p, j);
            assert(entry_fits(p[j]));
        }
        assert forall|name: Seq<char>| #[trigger] storage@.contains_key(name) implies holds_secret(
            out@,
            storage@,
            kb,
            name,
        ) by {
            lemma_encode_held_one(before, out@, p, kb, enc_sort@, name);
        }
        lemma_encode_finish_keys(before, out@, p, enc_sort@);
        assert(encodes_storage(out@, storage@, sort@, kb));
        assert(crate::map::map_of(q) == out@);
        assert(crate::data::storable_pairs(q)) by {
            assert forall|j: int| 0 <= j < q.len() implies crate::data::storable_key(#[trigger] q[j].0)
                && crate::data::storable_value(q[j].1) by {
                crate::map::lemma_map_of_index(q, j);
            }
        }
        assert(storage_file_of(q, storage@, sort@, kb, text@));
    }
    Ok(text)
}

/// Some secret among the first `i` positions of `p` has the hash `h`, and
/// `m` holds its value and name under the keys of `h`.
spec fn covered_in(m: Map<Seq<char>, Seq<char>>, p: Seq<(Seq<char>, Seq<char>)>, i: int, kb: Seq<u8>, h: Seq<char>) -> bool {
    exists|j2: int| 0 <= j2 < i && stored_name(p[j2].0) == h && #[trigger] decrypts_to(m, h, kb, p[j2].1, p[j2].0)
}

/// The secrets at the first `i` positions of `p` are in `m`, each under the
/// hash of its name and with the value and name of a secret among them that
/// has that hash.
#[verifier::opaque]
spec fn secrets_covered(m: Map<Seq<char>, Seq<char>>, p: Seq<(Seq<char>, Seq<char>)>, i: int, kb: Seq<u8>) -> bool {
    forall|j: int| 0 <= j < i ==> #[trigger] covered_at(m, p, i, kb, j)
}

/// Every key of `m` is a key of a secret at the first `i` positions of `p`.
#[verifier::opaque]
spec fn keys_accounted(m: Map<Seq<char>, Seq<char>>, p: Seq<(Seq<char>, Seq<char>)>, i: int) -> bool {
    forall|x: Seq<char>| #[trigger] m.contains_key(x) ==> exists|j: int| 0 <= j < i && #[trigger] secret_slot(x, p[j].0)
}

/// Adding the secret at position `i` keeps the first `i + 1` secrets covered
/// and accounted for.
proof fn lemma_encode_step(
    before: Map<Seq<char>, Seq<char>>,
    after: Map<Seq<char>, Seq<char>>,
    p: Seq<(Seq<char>, Seq<char>)>,
    i: int,
    kb: Seq<u8>,
    enc_secret: Seq<char>,
    enc_name: Seq<char>,
)
    requires
        0 <= i < p.len(),
        secrets_covered(before, p, i, kb),
        keys_accounted(before, p, i),
        forall|j: int| 0 <= j <= i ==> (#[trigger] stored_name(p[j].0)).len() == 64,
        after == before.insert(crate::api::spec_secret_key(stored_name(p[i].0)), enc_secret).insert(
            crate::api::spec_secret_name_key(stored_name(p[i].0)),
            enc_name,
        ),
        spec_decrypt_hex(enc_secret, kb) == Ok::<Seq<char>, Fail>(p[i].1),
        spec_decrypt_hex(enc_name, kb) == Ok::<Seq<char>, Fail>(p[i].0),
    ensures
        secrets_covered(after, p, i + 1, kb),
        keys_accounted(after, p, i + 1),
{
    let hi = stored_name(p[i].0);
    lemma_storage_keys(hi, hi);
    assert(decrypts_to(after, hi, kb, p[i].1, p[i].0));
    assert forall|j: int| 0 <= j < i + 1 implies #[trigger] covered_at(after, p, i + 1, kb, j) by {
        lemma_encode_step_one(before, after, p, i, kb, enc_secret, enc_name, j);
    }
    reveal(secrets_covered);
    assert forall|x: Seq<char>| #[trigger] after.contains_key(x) implies exists|j: int|
        0 <= j < i + 1 && #[trigger] secret_slot(x, p[j].0) by {
        if !secret_slot(x, p[i].0) {
            assert(before.contains_key(x));
            reveal(keys_accounted);
            let j = choose|j: int| 0 <= j < i && #[trigger] secret_slot(x, p[j].0);
            assert(secret_slot(x, p[j].0));
        }
    }
    reveal(keys_accounted);
}

/// The secret at position `j` is in `m` under the hash of its name, with the
/// value and name of a secret among the first `i` that has that hash.
spec fn covered_at(m: Map<Seq<char>, Seq<char>>, p: Seq<(Seq<char>, Seq<char>)>, i: int, kb: Seq<u8>, j: int) -> bool {
    m.contains_key(crate::api::spec_secret_key(stored_name(p[j].0))) && m.contains_key(
        crate::api::spec_secret_name_key(stored_name(p[j].0)),
    ) && covered_in(m, p, i, kb, stored_name(p[j].0))
}

/// One position of `lemma_encode_step`.
proof fn lemma_encode_step_one(
    before: Map<Seq<char>, Seq<char>>,
    after: Map<Seq<char>, Seq<char>>,
    p: Seq<(Seq<char>, Seq<char>)>,
    i: int,
    kb: Seq<u8>,
    enc_secret: Seq<char>,
    enc_name: Seq<char>,
    j: int,
)
    requires
        0 <= i < p.len(),
        0 <= j <= i,
        secrets_covered(before, p, i, kb),
        forall|j: int| 0 <= j <= i ==> (#[trigger] stored_name(p[j].0)).len() == 64,
        after == before.insert(crate::api::spec_secret_key(stored_name(p[i].0)), enc_secret).insert(
            crate::api::spec_secret_name_key(stored_name(p[i].0)),
            enc_name,
        ),
        spec_decrypt_hex(enc_secret, kb) == Ok::<Seq<char>, Fail>(p[i].1),
        spec_decrypt_hex(enc_name, kb) == Ok::<Seq<char>, Fail>(p[i].0),
    ensures
        covered_at(after, p, i + 1, kb, j),
{
    let hi = stored_name(p[i].0);
    let hj = stored_name(p[j].0);
    lemma_storage_keys(hi, hi);
    lemma_storage_keys(hj, hi);
    if hj == hi {
        assert(decrypts_to(after, hi, kb, p[i].1, p[i].0));
    } else {
        assert(covered_at(before, p, i, kb, j)) by {
            reveal(secrets_covered);
        }
        let j2 = choose|j2: int|
            0 <= j2 < i && stored_name(p[j2].0) == hj && #[trigger] decrypts_to(before, hj, kb, p[j2].1, p[j2].0);
        assert(decrypts_to(after, hj, kb, p[j2].1, p[j2].0));
    }
}

/// With every secret covered, adding the encrypted order keeps the secret
/// named `name` held.
proof fn lemma_encode_held_one(
    before: Map<Seq<char>, Seq<char>>,
    after: Map<Seq<char>, Seq<char>>,
    p: Seq<(Seq<char>, Seq<char>)>,
    kb: Seq<u8>,
    enc_sort: Seq<char>,
    name: Seq<char>,
)
    requires
        crate::map::keys_ascending(p),
        secrets_covered(before, p, p.len() as int, kb),
        forall|j: int| 0 <= j < p.len() ==> (#[trigger] stored_name(p[j].0)).len() == 64,
        after == before.insert("secrets_sort"@, enc_sort),
        crate::map::map_of(p).contains_key(name),
    ensures
        holds_secret(after, crate::map::map_of(p), kb, name),
{
    crate::map::lemma_map_of_dom(p, name);
    let j = choose|j: int| 0 <= j < p.len() && #[trigger] p[j].0 == name;
    let h = stored_name(name);
    assert(h.len() == 64);
    lemma_storage_keys(h, h);
    assert(covered_at(before, p, p.len() as int, kb, j)) by {
        reveal(secrets_covered);
    }
    let j2 = choose|j2: int|
        0 <= j2 < p.len() && stored_name(p[j2].0) == h && #[trigger] decrypts_to(before, h, kb, p[j2].1, p[j2].0);
    crate::map::lemma_map_of_index(p, j2);
    assert(decrypts_to(after, h, kb, crate::map::map_of(p)[p[j2].0], p[j2].0));
}

/// With every key accounted for, the keys after adding the encrypted order
/// are `secrets_sort` and those of the secrets.
proof fn lemma_encode_finish_keys(
    before: Map<Seq<char>, Seq<char>>,
    after: Map<Seq<char>, Seq<char>>,
    p: Seq<(Seq<char>, Seq<char>)>,
    enc_sort: Seq<char>,
)
    requires
        crate::map::keys_ascending(p),
        keys_accounted(before, p, p.len() as int),
        after == before.insert("secrets_sort"@, enc_sort),
    ensures
        forall|x: Seq<char>|
            #[trigger] after.contains_key(x) ==> x == "secrets_sort"@ || exists|name: Seq<char>|
                crate::map::map_of(p).contains_key(name) && #[trigger] secret_slot(x, name),
{
    reveal(keys_accounted);
    assert forall|x: Seq<char>| #[trigger] after.contains_key(x) implies x == "secrets_sort"@ || exists|
        name: Seq<char>,
    | crate::map::map_of(p).contains_key(name) && #[trigger] secret_slot(x, name) by {
        if x != "secrets_sort"@ {
            assert(before.contains_key(x));
            let j = choose|j: int| 0 <= j < p.len() && #[trigger] secret_slot(x, p[j].0);
            crate::map::lemma_map_of_index(p, j);
            assert(secret_slot(x, p[j].0));
        }
    }
}

/// The keys under which secrets are stored are all different for different
/// 64-digit hashes, and none is `secrets_sort`.
proof fn lemma_storage_keys(h1: Seq<char>, h2: Seq<char>)
    requires
        h1.len() == 64,
        h2.len() == 64,
    ensures
        crate::api::spec_secret_key(h1) != crate::api::spec_secret_name_key(h2),
        crate::api::spec_secret_name_key(h1) != crate::api::spec_secret_key(h2),
        crate::api::spec_secret_key(h1) == crate::api::spec_secret_key(h2) ==> h1 == h2,
        crate::api::spec_secret_name_key(h1) == crate::api::spec_secret_name_key(h2) ==> h1 == h2,
        crate::api::spec_secret_key(h1) != "secrets_sort"@,
        crate::api::spec_secret_name_key(h1) != "secrets_sort"@,
{
    reveal_strlit("_secret");
    reveal_strlit("_secret_name");
    reveal_strlit("secrets_sort");
    assert("_secret"@.len() == 7);
    assert("_secret_name"@.len() == 12);
    assert("secrets_sort"@.len() == 12);
    assert(crate::api::spec_secret_key(h1).len() == 71);
    assert(crate::api::spec_secret_key(h2).len() == 71);
    assert(crate::api::spec_secret_name_key(h1).len() == 76);
    assert(crate::api::spec_secret_name_key(h2).len() == 76);
    if crate::api::spec_secret_key(h1) == crate::api::spec_secret_key(h2) {
        lemma_suffix_cancel(h1, h2, "_secret"@);
    }
    if crate::api::spec_secret_name_key(h1) == crate::api::spec_secret_name_key(h2) {
        lemma_suffix_cancel(h1, h2, "_secret_name"@);
    }
}

/// Under the keys of the hash `h`, `r` holds `value` and `name`.
pub open spec fn reads_as(r: Map<Seq<char>, Seq<char>>, h: Seq<char>, value: Seq<char>, name: Seq<char>) -> bool {
    &&& r.contains_key(crate::api::spec_secret_key(h))
    &&& r.contains_key(crate::api::spec_secret_name_key(h))
    &&& r[crate::api::spec_secret_key(h)] == value
    &&& r[crate::api::spec_secret_name_key(h)] == name
}

/// `r` gives back the secret named `name` of `storage`: under the keys of the
/// hash of the name, the value and the name of a secret of `storage` whose
/// name has that hash.
pub open spec fn reads_secret(r: Map<Seq<char>, Seq<char>>, storage: Map<Seq<char>, Seq<char>>, name: Seq<char>) -> bool {
    exists|other: Seq<char>|
        storage.contains_key(other) && stored_name(other) == stored_name(name) && #[trigger] reads_as(
            r,
            stored_name(name),
            storage[other],
            other,
        )
}

/// No other secret of `storage` has a name with the hash of `name`.
pub open spec fn unique_hash(storage: Map<Seq<char>, Seq<char>>, name: Seq<char>) -> bool {
    forall|other: Seq<char>|
        #[trigger] storage.contains_key(other) && stored_name(other) == stored_name(name) ==> other == name
}

/// The keys of a secret are encrypted ones, and neither is `data`.
proof fn lemma_slot_keys(h: Seq<char>)
    ensures
        is_encrypted_key(crate::api::spec_secret_key(h)),
        is_encrypted_key(crate::api::spec_secret_name_key(h)),
        crate::api::spec_secret_key(h) != "data"@,
        crate::api::spec_secret_name_key(h) != "data"@,
{
    reveal_strlit("_secret");
    reveal_strlit("_secret_name");
    reveal_strlit("data");
    let a = crate::api::spec_secret_key(h);
    let b = crate::api::spec_secret_name_key(h);
    assert(a.subrange(h.len() as int, a.len() as int) =~= "_secret"@);
    assert(b.subrange(h.len() as int, b.len() as int) =~= "_secret_name"@);
    assert(a.len() >= 7 && b.len() >= 12);
}

/// A storage file that the web client wrote reads back, once the transfer
/// has added its final line break, as what was written: every entry
/// decrypts, the order of the secrets stands under `secrets_sort`, each
/// secret's value and name under the keys of the hash of its name (those of
/// the secret itself where no other secret shares that hash), the whole
/// text under `data`, and there is nothing else.
pub proof fn lemma_storage_roundtrip(
    storage: Map<Seq<char>, Seq<char>>,
    sort: Seq<char>,
    key: Seq<u8>,
    text: Seq<char>,
)
    requires
        serialized_storage(storage, sort, key, text),
    ensures
        storage_text(utf8(text) + seq![13u8, 10u8]) == Some(text),
        forall|k: Seq<char>|
            #[trigger] crate::data::spec_parse(text).contains_key(k) ==> decrypt_entry(
                k,
                crate::data::spec_parse(text)[k],
                key,
            ) is Ok,
        read_back(text, key).contains_key("secrets_sort"@),
        read_back(text, key)["secrets_sort"@] == sort,
        read_back(text, key).contains_key("data"@),
        read_back(text, key)["data"@] == text,
        forall|name: Seq<char>| #[trigger] storage.contains_key(name) ==> reads_secret(read_back(text, key), storage, name),
        forall|name: Seq<char>|
            #[trigger] storage.contains_key(name) && unique_hash(storage, name) ==> reads_as(
                read_back(text, key),
                stored_name(name),
                storage[name],
                name,
            ),
        forall|x: Seq<char>|
            #[trigger] read_back(text, key).contains_key(x) ==> x == "data"@ || x == "secrets_sort"@ || exists|
                name: Seq<char>,
            | storage.contains_key(name) && #[trigger] secret_slot(x, name),
{
    let p = choose|p: Seq<(Seq<char>, Seq<char>)>| #[trigger] storage_file_of(p, storage, sort, key, text);
    let m = crate::map::map_of(p);
    crate::data::lemma_parse_serialize(p);
    assert(crate::data::spec_parse(text) == m);
    let r = read_back(text, key);
    let bytes = utf8(text) + seq![13u8, 10u8];
    assert(bytes.take(bytes.len() - 2) =~= utf8(text));
    vstd::utf8::encode_utf8_valid_utf8(text);
    vstd::utf8::encode_utf8_decode_utf8(text);
    reveal_strlit("data");
    reveal_strlit("secrets_sort");
    assert("secrets_sort"@ != "data"@) by {
        assert("secrets_sort"@.len() != "data"@.len());
    }
    assert forall|k: Seq<char>| #[trigger] m.contains_key(k) implies decrypt_entry(k, m[k], key) is Ok && k
        != "data"@ by {
        if k != "secrets_sort"@ {
            let n = choose|n: Seq<char>| storage.contains_key(n) && #[trigger] secret_slot(k, n);
            assert(holds_secret(m, storage, key, n));
            lemma_slot_keys(stored_name(n));
        }
    }
    assert forall|name: Seq<char>| #[trigger] storage.contains_key(name) implies reads_secret(r, storage, name)
        && (unique_hash(storage, name) ==> reads_as(r, stored_name(name), storage[name], name)) by {
        let h = stored_name(name);
        assert(holds_secret(m, storage, key, name));
        lemma_slot_keys(h);
        let other = choose|other: Seq<char>|
            storage.contains_key(other) && stored_name(other) == h && #[trigger] decrypts_to(
                m,
                h,
                key,
                storage[other],
                other,
            );
        assert(reads_as(r, h, storage[other], other));
    }
}

} // verus!
