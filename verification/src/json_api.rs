//! The account API whose requests carry a JSON object in a `POST` body:
//! checking such a request, reading its fields, and the account operations
//! on the user database (name to Argon2 hash).

use vstd::prelude::*;
use crate::crypto::{argon2_verification, spec_argon2_hash, utf8};
use crate::error::Fail;
use crate::map::{text_eq, StrMap};
use crate::text::{chars_of, lowercase, to_lowercase, trim, trim_chars};

verus! {

broadcast use vstd::string::group_string_axioms;

/// What `json::parse` makes of `body`: `None` where it is no JSON, else the
/// entries of the object it holds, in order, each key with the text of its
/// value where that value is a string (a value that is no object has no
/// entries).
pub uninterp spec fn json_entries(body: Seq<char>) -> Option<Seq<(Seq<char>, Option<Seq<char>>)>>;

/// `json::parse` and `JsonValue::entries`: the entries of the JSON object in
/// `body`, each value given as its text where it is a string (`as_str`), or
/// `None` where `body` is no JSON. What it parses to is named, not stated.
#[verifier::external_body]
fn parse_json_entries(body: &str) -> (res: Option<Vec<(String, Option<String>)>>)
    ensures
        res is None <==> json_entries(body@) is None,
        res matches Some(v) ==> json_entries(body@) == Some(v.deep_view()),
{
    match json::parse(body) {
        Ok(value) => {
            let mut entries = Vec::new();
            for (key, v) in value.entries() {
                entries.push((key.to_string(), v.as_str().map(|s| s.to_string())));
            }
            Some(entries)
        },
        Err(_) => None,
    }
}

/// The fields of a JSON object: each entry under its lowercased key, later
/// entries winning.
pub open spec fn entries_map(e: Seq<(Seq<char>, Option<Seq<char>>)>) -> Map<Seq<char>, Option<Seq<char>>>
    decreases e.len(),
{
    if e.len() == 0 {
        Map::empty()
    } else {
        entries_map(e.drop_last()).insert(lowercase(e.last().0), e.last().1)
    }
}

/// The content type that a JSON request must name.
pub open spec fn json_content_type(content_type: Option<&str>) -> bool {
    match content_type {
        Some(c) => c@ == "application/json"@,
        None => false,
    }
}

/// A request must use `POST`.
pub fn is_post(post: bool) -> (res: Result<(), Fail>)
    ensures
        res is Ok <==> post,
        res matches Err(e) ==> e == Fail::NotPost,
{
    if post {
        Ok(())
    } else {
        Err(Fail::NotPost)
    }
}

/// A request must have a body that is not only white space.
pub fn has_body(body: &str) -> (res: Result<(), Fail>)
    ensures
        res is Ok <==> trim(body@).len() > 0,
        res matches Err(e) ==> e == Fail::EmptyBody,
{
    let cs = chars_of(body);
    if trim_chars(cs.as_slice()).len() == 0 {
        Err(Fail::EmptyBody)
    } else {
        Ok(())
    }
}

/// A request must name the content type `application/json` and hold JSON;
/// the entries of its object come back.
pub fn is_json(content_type: Option<&str>, body: &str) -> (res: Result<Vec<(String, Option<String>)>, Fail>)
    ensures
        !json_content_type(content_type) ==> (res matches Err(e) && e == Fail::NotJsonContentType),
        json_content_type(content_type) ==> match json_entries(body@) {
            None => res matches Err(e) && e == Fail::NotJson,
            Some(e) => res matches Ok(v) && v.deep_view() == e,
        },
{
    let expected = chars_of("application/json");
    let named = match content_type {
        Some(c) => {
            let given = chars_of(c);
            text_eq(given.as_slice(), expected.as_slice())
        },
        None => false,
    };
    if !named {
        return Err(Fail::NotJsonContentType);
    }
    match parse_json_entries(body) {
        Some(entries) => Ok(entries),
        None => Err(Fail::NotJson),
    }
}

/// The checks of a JSON request, in order: the method, the body, the content
/// type and the JSON; the entries of its object come back.
pub fn default_check(post: bool, content_type: Option<&str>, body: &str) -> (res: Result<
    Vec<(String, Option<String>)>,
    Fail,
>)
    ensures
        !post ==> (res matches Err(e) && e == Fail::NotPost),
        post && trim(body@).len() == 0 ==> (res matches Err(e) && e == Fail::EmptyBody),
        post && trim(body@).len() > 0 && !json_content_type(content_type) ==> (res matches Err(
            e,
        ) && e == Fail::NotJsonContentType),
        post && trim(body@).len() > 0 && json_content_type(content_type) ==> match json_entries(
            body@,
        ) {
            None => res matches Err(e) && e == Fail::NotJson,
            Some(e) => res matches Ok(v) && v.deep_view() == e,
        },
{
    is_post(post)?;
    has_body(body)?;
    is_json(content_type, body)
}

/// The fields of a JSON object, under lowercased keys.
pub fn to_map(entries: &Vec<(String, Option<String>)>) -> (res: StrMap<Option<String>>)
    ensures
        res@ == entries_map(entries.deep_view()),
{
    let ghost e = entries.deep_view();
    let mut map: StrMap<Option<String>> = StrMap::new();
    assert(e.take(0) =~= Seq::<(Seq<char>, Option<Seq<char>>)>::empty());
    for i in 0..entries.len()
        invariant
            e == entries.deep_view(),
            map@ == entries_map(e.take(i as int)),
    {
        let key = to_lowercase(entries[i].0.as_str());
        let value = match &entries[i].1 {
            Some(s) => Some(s.clone()),
            None => None,
        };
        map.insert(key, value);
        assert(e.take(i + 1).drop_last() =~= e.take(i as int));
    }
    assert(e.take(e.len() as int) =~= e);
    map
}

/// The field `key`, or an error that names it.
pub fn get<'a>(data: &'a StrMap<Option<String>>, key: &str) -> (res: Result<&'a Option<String>, Fail>)
    ensures
        res is Ok <==> data@.contains_key(key@),
        res matches Ok(v) ==> v.deep_view() == data@[key@],
        res matches Err(e) ==> e matches Fail::Required(k) && k@ == key@,
{
    match data.get(key) {
        Some(v) => Ok(v),
        None => Err(Fail::Required(String::from_str(key))),
    }
}

/// The text of the string field `key`, or an error that names it.
pub fn get_str<'a>(data: &'a StrMap<Option<String>>, key: &str) -> (res: Result<&'a String, Fail>)
    ensures
        res is Ok <==> data@.contains_key(key@) && data@[key@] is Some,
        res matches Ok(v) ==> Some(v@) == data@[key@],
        res matches Err(e) ==> if data@.contains_key(key@) {
            e matches Fail::NotAString(k) && k@ == key@
        } else {
            e matches Fail::Required(k) && k@ == key@
        },
{
    match get(data, key)? {
        Some(s) => Ok(s),
        None => Err(Fail::NotAString(String::from_str(key))),
    }
}

/// Deletes the account `username` where `password` matches its Argon2 hash.
pub fn delete(users: &mut StrMap<String>, username: &str, password: &str) -> (res: Result<(), Fail>)
    ensures
        !old(users)@.contains_key(username@) ==> (res matches Err(e) && e == Fail::UsernameMissing),
        old(users)@.contains_key(username@) ==> if argon2_verification(old(users)@[username@], utf8(password@))
            == Some(true) {
            res is Ok && final(users)@ == old(users)@.remove(username@)
        } else {
            res matches Err(e) && e == Fail::Unauthenticated
        },
        res is Err ==> final(users)@ == old(users)@,
{
    match users.get(username) {
        Some(hash) => {
            if !crate::crypto::argon2_verify(hash.as_str(), password.as_bytes()) {
                return Err(Fail::Unauthenticated);
            }
        },
        None => {
            return Err(Fail::UsernameMissing);
        },
    }
    users.remove(username);
    Ok(())
}

/// Whether `password` matches the Argon2 hash of the account `username`.
pub fn login(users: &StrMap<String>, username: &str, password: &str) -> (res: Result<bool, Fail>)
    ensures
        res is Ok <==> users@.contains_key(username@),
        res matches Ok(b) ==> b == (argon2_verification(users@[username@], utf8(password@)) == Some(true)),
        res matches Err(e) ==> e == Fail::UsernameMissing,
{
    match users.get(username) {
        Some(hash) => Ok(crate::crypto::argon2_verify(hash.as_str(), password.as_bytes())),
        None => Err(Fail::UsernameMissing),
    }
}

/// Creates the account `username` with the Argon2 hash of `password` under
/// a fresh 10-byte random salt, unless the name is taken.
pub fn register(users: &mut StrMap<String>, username: &str, password: &str) -> (res: Result<(), Fail>)
    ensures
        old(users)@.contains_key(username@) ==> (res matches Err(e) && e == Fail::UsernameExists),
        !old(users)@.contains_key(username@) ==> (res is Ok <==> utf8(password@).len() <= u32::MAX),
        res matches Err(e) ==> (e == Fail::UsernameExists || e is Argon2Failed) && final(users)@ == old(
            users,
        )@,
        res is Ok ==> final(users)@.dom() == old(users)@.dom().insert(username@) && exists|salt: Seq<u8>|
            salt.len() == 10 && final(users)@ == old(users)@.insert(
                username@,
                #[trigger] spec_argon2_hash(utf8(password@), salt),
            ),
        res is Ok ==> argon2_verification(final(users)@[username@], utf8(password@)) == Some(true),
{
    if users.contains_key(username) {
        return Err(Fail::UsernameExists);
    }
    let salt = crate::crypto::random(10);
    let hash = crate::crypto::argon2_hash(password.as_bytes(), salt.as_slice())?;
    users.insert(String::from_str(username), hash);
    Ok(())
}

} // verus!
