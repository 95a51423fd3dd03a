//! The decisions of the API server's handlers: routing, the user database
//! and the entries of a user's storage file.

use vstd::prelude::*;
use crate::crypto::{argon2_verification, argon2_verify};
use crate::error::Fail;
use crate::map::{text_eq, StrMap};
use crate::text::chars_of;
use crate::text::all_alnum;
use crate::utils::is_alphanumeric;
use crate::logins::{Timestamp, UserLogins};
use crate::security::{ApiAction, SecurityManager};
use crate::utils::{error_response, json_error};

verus! {

broadcast use vstd::string::group_string_axioms;

/// `a` followed by `b`.
fn concat(a: &str, b: &str) -> (res: String)
    ensures
        res@ == a@ + b@,
{
    let mut res = String::from_str(a);
    res.append(b);
    res
}

/// The handlers of the API server.
#[derive(Debug, Clone, Copy, PartialEq, Eq, Structural)]
pub enum Route {
    UserRegister,
    UserLogin,
    UserDelete,
    UserLogout,
    UserValid,
    UserChangePassword,
    UserChangeUsername,
    DataGetSecure,
    DataSetSecure,
    DataUpdate,
    DataDelete,
    DataRename,
    DataUpdateSort,
}

/// The paths of the handlers, in the order of `Route`.
pub open spec fn route_paths() -> Seq<(Seq<char>, Route)> {
    seq![
        ("/user/register"@, Route::UserRegister),
        ("/user/login"@, Route::UserLogin),
        ("/user/delete"@, Route::UserDelete),
        ("/user/logout"@, Route::UserLogout),
        ("/user/valid"@, Route::UserValid),
        ("/user/change_password"@, Route::UserChangePassword),
        ("/user/change_username"@, Route::UserChangeUsername),
        ("/data/get_secure"@, Route::DataGetSecure),
        ("/data/set_secure"@, Route::DataSetSecure),
        ("/data/update"@, Route::DataUpdate),
        ("/data/delete"@, Route::DataDelete),
        ("/data/rename"@, Route::DataRename),
        ("/data/update_sort"@, Route::DataUpdateSort),
    ]
}

/// The handler for the path `url`, if there is one.
pub fn route(url: &str) -> (res: Option<Route>)
    ensures
        res matches Some(r) ==> exists|i: int| 0 <= i < route_paths().len() && #[trigger] route_paths()[i] == (url@, r),
        res is None ==> forall|i: int| 0 <= i < route_paths().len() ==> (#[trigger] route_paths()[i]).0 != url@,
{
    let u = chars_of(url);
    let paths: [(&str, Route); 13] = [
        ("/user/register", Route::UserRegister),
        ("/user/login", Route::UserLogin),
        ("/user/delete", Route::UserDelete),
        ("/user/logout", Route::UserLogout),
        ("/user/valid", Route::UserValid),
        ("/user/change_password", Route::UserChangePassword),
        ("/user/change_username", Route::UserChangeUsername),
        ("/data/get_secure", Route::DataGetSecure),
        ("/data/set_secure", Route::DataSetSecure),
        ("/data/update", Route::DataUpdate),
        ("/data/delete", Route::DataDelete),
        ("/data/rename", Route::DataRename),
        ("/data/update_sort", Route::DataUpdateSort),
    ];
    assert(forall|i: int| 0 <= i < 13 ==> (#[trigger] paths@[i]).0@ == route_paths()[i].0 && paths@[i].1 == route_paths()[i].1);
    for i in 0..13
        invariant
            u@ == url@,
            forall|i: int| 0 <= i < 13 ==> (#[trigger] paths@[i]).0@ == route_paths()[i].0 && paths@[i].1 == route_paths()[i].1,
            forall|j: int| 0 <= j < i ==> (#[trigger] route_paths()[j]).0 != url@,
    {
        let p = chars_of(paths[i].0);
        if text_eq(u.as_slice(), p.as_slice()) {
            assert(route_paths()[i as int] == (url@, paths@[i as int].1));
            return Some(paths[i].1);
        }
    }
    None
}

/// The key of a secret's value in a storage file: `name_secret`.
pub open spec fn spec_secret_key(name: Seq<char>) -> Seq<char> {
    name + "_secret"@
}

/// The key of a secret's encrypted name in a storage file: `name_secret_name`.
pub open spec fn spec_secret_name_key(name: Seq<char>) -> Seq<char> {
    name + "_secret_name"@
}

/// The key of a secret's value in a storage file.
pub fn secret_key(name: &str) -> (res: String)
    ensures
        res@ == spec_secret_key(name@),
{
    concat(name, "_secret")
}

/// The key of a secret's encrypted name in a storage file.
pub fn secret_name_key(name: &str) -> (res: String)
    ensures
        res@ == spec_secret_name_key(name@),
{
    concat(name, "_secret_name")
}

/// Stores a secret's value and its encrypted name.
pub fn update_secret(cache: &mut StrMap<String>, secret_name: &str, secret_value: &str, secret_name_encrypted: &str)
    ensures
        final(cache)@ == old(cache)@.insert(spec_secret_key(secret_name@), secret_value@).insert(
            spec_secret_name_key(secret_name@),
            secret_name_encrypted@,
        ),
{
    cache.insert(secret_key(secret_name), String::from_str(secret_value));
    cache.insert(secret_name_key(secret_name), String::from_str(secret_name_encrypted));
}

/// Moves a secret's value to a new name, with a new encrypted name. Both
/// entries of the old name must exist; where the value exists and the name
/// does not, the value has been removed when the error comes back (a value
/// that does not exist leaves the cache as it was).
pub fn rename_secret(
    cache: &mut StrMap<String>,
    secret_name: &str,
    new_secret_name: &str,
    secret_name_encrypted: &str,
) -> (res: Result<(), Fail>)
    ensures
        res is Ok <==> old(cache)@.contains_key(spec_secret_key(secret_name@)) && old(
            cache,
        )@.remove(spec_secret_key(secret_name@)).contains_key(spec_secret_name_key(secret_name@)),
        res matches Err(e) ==> e == Fail::EntryMissing,
        res is Ok ==> final(cache)@ == old(cache)@.remove(spec_secret_key(secret_name@)).remove(
            spec_secret_name_key(secret_name@),
        ).insert(spec_secret_key(new_secret_name@), old(cache)@[spec_secret_key(secret_name@)]).insert(
            spec_secret_name_key(new_secret_name@),
            secret_name_encrypted@,
        ),
        res is Err ==> final(cache)@ == old(cache)@.remove(spec_secret_key(secret_name@)),
{
    let secret = match cache.remove(secret_key(secret_name).as_str()) {
        Some(s) => s,
        None => {
            assert(old(cache)@.remove(spec_secret_key(secret_name@)) =~= old(cache)@);
            return Err(Fail::EntryMissing);
        },
    };
    match cache.remove(secret_name_key(secret_name).as_str()) {
        Some(_) => {},
        None => {
            return Err(Fail::EntryMissing);
        },
    }
    cache.insert(secret_key(new_secret_name), secret);
    cache.insert(secret_name_key(new_secret_name), String::from_str(secret_name_encrypted));
    Ok(())
}

/// Removes a secret's value and encrypted name.
pub fn delete_secret(cache: &mut StrMap<String>, secret_name: &str)
    ensures
        final(cache)@ == old(cache)@.remove(spec_secret_key(secret_name@)).remove(
            spec_secret_name_key(secret_name@),
        ),
{
    cache.remove(secret_key(secret_name).as_str());
    cache.remove(secret_name_key(secret_name).as_str());
}

/// Stores the order of the secrets.
pub fn update_sort(cache: &mut StrMap<String>, secrets_sort: &str)
    ensures
        final(cache)@ == old(cache)@.insert("secrets_sort"@, secrets_sort@),
{
    cache.insert(String::from_str("secrets_sort"), String::from_str(secrets_sort));
}

/// Some handler serves the path `url`.
pub open spec fn known_path(url: Seq<char>) -> bool {
    exists|i: int| 0 <= i < route_paths().len() && #[trigger] route_paths()[i].0 == url
}

/// `res` is how a request for `url` from `ip` is let through at `now`: a path
/// that no handler serves is answered "handler not found" (before any
/// check of the address); an address that may not make a request is
/// answered "blocked ip address"; otherwise the request goes to the
/// handler of its path.
pub open spec fn screened(
    url: Seq<char>,
    security: SecurityManager,
    ip: Seq<char>,
    now: Timestamp,
    res: Result<Route, Vec<u8>>,
) -> bool {
    &&& !known_path(url) ==> (res matches Err(b) && error_response(b@, "handler not found"@))
    &&& known_path(url) && !security.spec_check(ip, ApiAction::Simple, now) ==> (res matches Err(b)
        && error_response(b@, "blocked ip address"@))
    &&& known_path(url) && security.spec_check(ip, ApiAction::Simple, now) ==> (res matches Ok(r) && exists|
        i: int,
    | 0 <= i < route_paths().len() && #[trigger] route_paths()[i] == (url, r))
}

/// Lets a request for `url` from `ip` through at `now`, or gives the answer
/// that turns it away.
pub fn screen_at(url: &str, security: &SecurityManager, ip: &str, now: Timestamp) -> (res: Result<Route, Vec<u8>>)
    ensures
        screened(url@, *security, ip@, now, res),
{
    let r = match route(url) {
        Some(r) => r,
        None => {
            return Err(json_error("handler not found"));
        },
    };
    proof {
        let i = choose|i: int| 0 <= i < route_paths().len() && #[trigger] route_paths()[i] == (url@, r);
        assert(route_paths()[i].0 == url@);
    }
    if !security.check_at(ip, ApiAction::Simple, now) {
        return Err(json_error("blocked ip address"));
    }
    Ok(r)
}

/// Lets a request for `url` from `ip` through by the system clock, or gives
/// the answer that turns it away.
pub fn screen(url: &str, security: &SecurityManager, ip: &str) -> (res: Result<Route, Vec<u8>>)
    ensures
        exists|t: Timestamp| #[trigger] screened(url@, *security, ip@, t, res),
{
    let t = crate::logins::now();
    screen_at(url, security, ip, t)
}

/// The answer to a request whose handler gave `handled`: its response, or
/// the JSON error that reports its message.
pub fn answer(handled: Result<Vec<u8>, String>) -> (res: Vec<u8>)
    ensures
        handled matches Ok(b) ==> res@ == b@,
        handled matches Err(m) ==> error_response(res@, m@),
{
    match handled {
        Ok(b) => b,
        Err(m) => json_error(m.as_str()),
    }
}

/// Registers `username` with the (client-hashed) password, unless the name
/// is taken.
pub fn register_user(users: &mut StrMap<String>, username: &str, password: &str) -> (res: Result<(), Fail>)
    ensures
        res is Ok <==> !old(users)@.contains_key(username@),
        res is Ok ==> final(users)@ == old(users)@.insert(username@, password@),
        res matches Err(e) ==> e == Fail::UsernameExists && final(users)@ == old(users)@,
{
    if users.contains_key(username) {
        return Err(Fail::UsernameExists);
    }
    users.insert(String::from_str(username), String::from_str(password));
    Ok(())
}

/// What a login of `username` with `password` is answered: accepted where
/// the password verifies against the Argon2 hash stored for the name, and
/// otherwise refused as unauthenticated, whether the name is unknown or the
/// password wrong.
pub open spec fn spec_login_answer(
    users: Map<Seq<char>, Seq<char>>,
    username: Seq<char>,
    password: Seq<char>,
) -> Result<(), Fail> {
    if users.contains_key(username) && argon2_verification(
        users[username],
        vstd::utf8::encode_utf8(password),
    ) == Some(true) {
        Ok(())
    } else {
        Err(Fail::Unauthenticated)
    }
}

/// Checks `password` against the Argon2 hash stored for `username`.
pub fn authenticate(users: &StrMap<String>, username: &str, password: &str) -> (res: Result<(), Fail>)
    ensures
        res == spec_login_answer(users@, username@, password@),
{
    match users.get(username) {
        Some(hash) => {
            if argon2_verify(hash.as_str(), password.as_bytes()) {
                Ok(())
            } else {
                Err(Fail::Unauthenticated)
            }
        },
        None => Err(Fail::Unauthenticated),
    }
}

/// Logs `username` in with `password`: where the password verifies, a fresh
/// login token is issued and returned; otherwise the request is refused as
/// unauthenticated and no token is issued.
pub fn login(users: &StrMap<String>, logins: &mut UserLogins, username: &str, password: &str) -> (res: Result<
    String,
    Fail,
>)
    ensures
        res is Ok <==> spec_login_answer(users@, username@, password@) is Ok,
        res matches Err(e) ==> e == Fail::Unauthenticated && *final(logins) == *old(logins),
        res matches Ok(token) ==> {
            &&& token@.len() == 64
            &&& all_alnum(token@)
            &&& final(logins).valid_login() == old(logins).valid_login()
            &&& exists|t: Timestamp|
                final(logins)@ == #[trigger] crate::logins::after_add(
                    old(logins)@,
                    username@,
                    token@,
                    old(logins).valid_login(),
                    t,
                ) && (old(logins).valid_login() > 0 ==> final(logins).spec_valid(username@, token@, t))
        },
{
    match authenticate(users, username, password) {
        Err(e) => Err(e),
        Ok(()) => Ok(logins.add(username)),
    }
}

/// A login with an unknown user name is answered exactly as one with a
/// known name and a wrong password: both are refused as unauthenticated,
/// so the answer does not tell which names exist.
pub proof fn lemma_unknown_name_like_wrong_password(
    users: Map<Seq<char>, Seq<char>>,
    other_users: Map<Seq<char>, Seq<char>>,
    username: Seq<char>,
    password: Seq<char>,
)
    requires
        !users.contains_key(username),
        other_users.contains_key(username),
        argon2_verification(other_users[username], vstd::utf8::encode_utf8(password)) != Some(true),
    ensures
        spec_login_answer(users, username, password) == spec_login_answer(other_users, username, password),
        spec_login_answer(users, username, password) == Err::<(), Fail>(Fail::Unauthenticated),
{
}

/// Replaces the password of `username`, which must be registered.
pub fn change_password(users: &mut StrMap<String>, username: &str, password: &str) -> (res: Result<(), Fail>)
    ensures
        res is Ok <==> old(users)@.contains_key(username@),
        res is Ok ==> final(users)@ == old(users)@.insert(username@, password@),
        res matches Err(e) ==> e == Fail::UserMissing && final(users)@ == old(users)@,
{
    if !users.contains_key(username) {
        return Err(Fail::UserMissing);
    }
    users.insert(String::from_str(username), String::from_str(password));
    Ok(())
}

/// Moves the entry of `username` to `new_username`, which must be free.
pub fn rename_user(users: &mut StrMap<String>, username: &str, new_username: &str) -> (res: Result<(), Fail>)
    ensures
        old(users)@.contains_key(new_username@) ==> (res matches Err(e) && e == Fail::NewUsernameExists
            && final(users)@ == old(users)@),
        !old(users)@.contains_key(new_username@) && !old(users)@.contains_key(username@) ==> (res matches Err(e)
            && e == Fail::UserMissing && final(users)@ == old(users)@),
        res is Ok <==> !old(users)@.contains_key(new_username@) && old(users)@.contains_key(username@),
        res is Ok ==> final(users)@ == old(users)@.remove(username@).insert(
            new_username@,
            old(users)@[username@],
        ),
{
    if users.contains_key(new_username) {
        return Err(Fail::NewUsernameExists);
    }
    match users.remove(username) {
        Some(hash) => {
            users.insert(String::from_str(new_username), hash);
            Ok(())
        },
        None => {
            assert(old(users)@.remove(username@) =~= old(users)@);
            Err(Fail::UserMissing)
        },
    }
}

/// The path `data_dir/name.edb` of a user's storage file; the name must be a
/// non-empty run of letters and digits.
pub fn storage_file_name(data_dir: &str, name: &str) -> (res: Result<String, Fail>)
    ensures
        res is Ok <==> name@.len() > 0 && all_alnum(name@),
        res matches Ok(p) ==> p@ == data_dir@ + "/"@ + name@ + ".edb"@,
        res matches Err(e) ==> e == Fail::NameNotAlphanumeric,
{
    if name.is_empty() || !is_alphanumeric(name) {
        return Err(Fail::NameNotAlphanumeric);
    }
    let mut path = String::from_str(data_dir);
    path.append("/");
    path.append(name);
    path.append(".edb");
    Ok(path)
}

/// The values of the headers `names`, in order; a missing one is reported
/// by its name, the first one that is missing.
pub fn require_fields(headers: &StrMap<String>, names: &[&str]) -> (res: Result<Vec<String>, Fail>)
    ensures
        res is Ok <==> forall|i: int| 0 <= i < names@.len() ==> headers@.contains_key(#[trigger] names@[i]@),
        res matches Ok(v) ==> v@.len() == names@.len() && forall|i: int|
            0 <= i < names@.len() ==> (#[trigger] v@[i])@ == headers@[names@[i]@],
        res matches Err(e) ==> exists|i: int|
            0 <= i < names@.len() && !headers@.contains_key(#[trigger] names@[i]@) && (forall|j: int|
                0 <= j < i ==> headers@.contains_key(#[trigger] names@[j]@)) && (e matches Fail::Required(k)
                && k@ == names@[i]@),
{
    let mut values: Vec<String> = Vec::new();
    for i in 0..names.len()
        invariant
            values@.len() == i,
            forall|j: int| 0 <= j < i ==> headers@.contains_key(#[trigger] names@[j]@),
            forall|j: int| 0 <= j < i ==> (#[trigger] values@[j])@ == headers@[names@[j]@],
    {
        match crate::utils::get_str(headers, names[i]) {
            Ok(v) => {
                values.push(v.clone());
            },
            Err(e) => {
                assert(!headers@.contains_key(names@[i as int]@));
                return Err(e);
            },
        }
    }
    Ok(values)
}

/// The user name of a request and the values of the headers `names`, in
/// order: the user name must be a non-empty run of letters and digits, and
/// it is checked before the other headers are looked up.
pub fn request_values(headers: &StrMap<String>, names: &[&str]) -> (res: Result<(String, Vec<String>), Fail>)
    ensures
        res is Ok <==> headers@.contains_key("username"@) && headers@["username"@].len() > 0 && all_alnum(
            headers@["username"@],
        ) && forall|i: int| 0 <= i < names@.len() ==> headers@.contains_key(#[trigger] names@[i]@),
        res matches Ok((u, v)) ==> u@ == headers@["username"@] && v@.len() == names@.len() && forall|i: int|
            0 <= i < names@.len() ==> (#[trigger] v@[i])@ == headers@[names@[i]@],
        !headers@.contains_key("username"@) ==> (res matches Err(e) && e matches Fail::Required(k) && k@
            == "username"@),
        headers@.contains_key("username"@) && !(headers@["username"@].len() > 0 && all_alnum(
            headers@["username"@],
        )) ==> (res matches Err(e) && e matches Fail::NotAlphanumeric(k) && k@ == "username"@),
        headers@.contains_key("username"@) && headers@["username"@].len() > 0 && all_alnum(headers@["username"@])
            ==> (res matches Err(e) ==> exists|i: int|
            0 <= i < names@.len() && !headers@.contains_key(#[trigger] names@[i]@) && (forall|j: int|
                0 <= j < i ==> headers@.contains_key(#[trigger] names@[j]@)) && (e matches Fail::Required(k)
                && k@ == names@[i]@)),
{
    let username = crate::utils::get_username(headers)?;
    let values = require_fields(headers, names)?;
    Ok((username.clone(), values))
}

/// Lets a request through when `token` is a valid login of `username` at
/// `now`. Otherwise it counts a failed login of `ip` and refuses the request
/// as unauthenticated; the flag then tells whether that banned `ip` with the
/// ban to be announced.
pub fn authorize_at(
    logins: &UserLogins,
    security: &mut SecurityManager,
    ip: &str,
    username: &str,
    token: &str,
    now: Timestamp,
) -> (res: (Result<(), Fail>, bool))
    requires
        old(security).fails().contains_key(ip@) ==> old(security).fails()[ip@].0 < u32::MAX,
    ensures
        logins.spec_valid(username@, token@, now) ==> res == (Ok::<(), Fail>(()), false) && *final(security)
            == *old(security),
        !logins.spec_valid(username@, token@, now) ==> res.0 == Err::<(), Fail>(Fail::Unauthenticated)
            && old(security).counts_login_fail(*final(security), ip@, now, res.1),
{
    if logins.valid_at(username, token, now) {
        (Ok(()), false)
    } else {
        let announce = security.login_fail_at(ip, now);
        (Err(Fail::Unauthenticated), announce)
    }
}

/// `authorize_at` by the system clock.
pub fn authorize(
    logins: &UserLogins,
    security: &mut SecurityManager,
    ip: &str,
    username: &str,
    token: &str,
) -> (res: (Result<(), Fail>, bool))
    requires
        old(security).fails().contains_key(ip@) ==> old(security).fails()[ip@].0 < u32::MAX,
    ensures
        exists|t: Timestamp| {
            &&& #[trigger] logins.spec_valid(username@, token@, t) ==> res == (Ok::<(), Fail>(()), false)
                && *final(security) == *old(security)
            &&& !logins.spec_valid(username@, token@, t) ==> res.0 == Err::<(), Fail>(Fail::Unauthenticated)
                && old(security).counts_login_fail(*final(security), ip@, t, res.1)
        },
{
    let t = crate::logins::now();
    authorize_at(logins, security, ip, username, token, t)
}

/// The answer of the test handler: an error for an empty body, else the
/// JSON object `{"hello":"world"}`.
pub fn test(body: &[u8]) -> (res: Vec<u8>)
    ensures
        ({
            let json = if body@.len() == 0 {
                crate::utils::spec_error_json("Empty body"@)
            } else {
                crate::utils::spec_string_json("hello"@, "world"@)
            };
            crate::utils::http_response(
                res@,
                "200 OK"@,
                "application/json"@,
                crate::utils::pairs_map(crate::utils::spec_cors_headers()),
                vstd::utf8::encode_utf8(json),
            )
        }),
{
    if body.len() == 0 {
        return crate::utils::json_error("Empty body");
    }
    let json = crate::utils::string_json("hello", "world");
    crate::utils::jsonify(json.as_str())
}

/// The path `data_dir/name.edb` of the storage file of `name`.
pub open spec fn spec_storage_path(data_dir: Seq<char>, name: Seq<char>) -> Seq<char> {
    data_dir + "/"@ + name + ".edb"@
}

/// A name that a storage file may have: a non-empty run of letters and
/// digits.
pub open spec fn storable_name(name: Seq<char>) -> bool {
    name.len() > 0 && all_alnum(name)
}

/// The stages of an account update (a new password and, where one is given,
/// a new user name), each waiting for the outcome of the action that the
/// step before asked for.
#[derive(Debug, Clone, Copy, PartialEq, Eq, Structural)]
pub enum UpdateStage {
    /// Nothing done yet.
    Begin,
    /// The re-encrypted storage file is being written.
    StorageWrite,
    /// The user database with the new password is being written.
    PasswordWrite,
    /// The storage file is being moved to the new name.
    FileMove,
    /// The user database with the new name is being written.
    NameWrite,
    /// The storage file is being moved back after a failure.
    MoveBack,
    /// The update has been answered.
    Done,
}

/// An account update under way.
pub struct AccountUpdate {
    /// The user whose account changes.
    pub username: String,
    /// The new password (hash).
    pub password: String,
    /// The new user name, where one is given.
    pub new_username: Option<String>,
    /// The directory of the storage files.
    pub data_dir: String,
    /// Where the update stands.
    pub stage: UpdateStage,
    /// The failure to answer once the storage file is moved back.
    pub failure: Option<String>,
}

/// What the server does next for an account update.
pub enum UpdateAction {
    /// Write the request body as the storage file at this path.
    WriteStorageFile(String),
    /// Write the user database.
    WriteUsers,
    /// Move the storage file from the first path to the second.
    MoveStorageFile(String, String),
    /// Answer the request: success, or the message of the failure.
    Answer(Result<(), String>),
}

/// The next step of an account update, given the outcome of the action the
/// step before asked for (`Ok` to begin): the storage file is written, then
/// the password changed and the user database written, which ends the
/// user's logins; where a new name is given that is free, the storage file
/// is moved to it, the account renamed and the user database written,
/// which ends the logins again. A failed action is answered with its
/// message; where the rename or its write fails, the storage file is moved
/// back first.
pub fn update_step(
    u: &mut AccountUpdate,
    event: Result<(), String>,
    users: &mut StrMap<String>,
    logins: &mut UserLogins,
) -> (res: UpdateAction)
    requires
        old(u).stage != UpdateStage::Done,
    ensures
        final(u).username@ == old(u).username@,
        final(u).password@ == old(u).password@,
        final(u).new_username.deep_view() == old(u).new_username.deep_view(),
        final(u).data_dir@ == old(u).data_dir@,
        final(logins).valid_login() == old(logins).valid_login(),
        old(u).stage == UpdateStage::Begin ==> final(users)@ == old(users)@ && final(logins)@ == old(logins)@
            && if storable_name(old(u).username@) {
            &&& res matches UpdateAction::WriteStorageFile(p) && p@ == spec_storage_path(
                old(u).data_dir@,
                old(u).username@,
            )
            &&& final(u).stage == UpdateStage::StorageWrite
        } else {
            &&& res matches UpdateAction::Answer(Err(m)) && m@ == Fail::NameNotAlphanumeric.spec_message()
            &&& final(u).stage == UpdateStage::Done
        },
        old(u).stage == UpdateStage::StorageWrite ==> final(logins)@ == old(logins)@ && match event {
            Err(m) => res matches UpdateAction::Answer(Err(a)) && a@ == m@ && final(u).stage == UpdateStage::Done
                && final(users)@ == old(users)@,
            Ok(_) => if old(users)@.contains_key(old(u).username@) {
                &&& final(users)@ == old(users)@.insert(old(u).username@, old(u).password@)
                &&& res is WriteUsers
                &&& final(u).stage == UpdateStage::PasswordWrite
            } else {
                &&& final(users)@ == old(users)@
                &&& res matches UpdateAction::Answer(Err(a)) && a@ == Fail::UserMissing.spec_message()
                &&& final(u).stage == UpdateStage::Done
            },
        },
        old(u).stage == UpdateStage::PasswordWrite ==> final(users)@ == old(users)@ && match event {
            Err(m) => res matches UpdateAction::Answer(Err(a)) && a@ == m@ && final(u).stage == UpdateStage::Done
                && final(logins)@ == old(logins)@,
            Ok(_) => final(logins)@ == old(logins)@.remove(old(u).username@) && match old(u).new_username {
                None => res matches UpdateAction::Answer(Ok(_)) && final(u).stage == UpdateStage::Done,
                Some(n) => if old(users)@.contains_key(n@) {
                    &&& res matches UpdateAction::Answer(Err(a)) && a@ == Fail::NewUsernameExists.spec_message()
                    &&& final(u).stage == UpdateStage::Done
                } else if storable_name(old(u).username@) && storable_name(n@) {
                    &&& res matches UpdateAction::MoveStorageFile(from, to) && from@ == spec_storage_path(
                        old(u).data_dir@,
                        old(u).username@,
                    ) && to@ == spec_storage_path(old(u).data_dir@, n@)
                    &&& final(u).stage == UpdateStage::FileMove
                } else {
                    &&& res matches UpdateAction::Answer(Err(a)) && a@ == Fail::NameNotAlphanumeric.spec_message()
                    &&& final(u).stage == UpdateStage::Done
                },
            },
        },
        old(u).stage == UpdateStage::FileMove ==> final(logins)@ == old(logins)@ && match event {
            Err(m) => res matches UpdateAction::Answer(Err(a)) && a@ == m@ && final(u).stage == UpdateStage::Done
                && final(users)@ == old(users)@,
            Ok(_) => match old(u).new_username {
                None => res matches UpdateAction::Answer(Ok(_)) && final(u).stage == UpdateStage::Done
                    && final(users)@ == old(users)@,
                Some(n) => if !old(users)@.contains_key(n@) && old(users)@.contains_key(old(u).username@) {
                    &&& final(users)@ == old(users)@.remove(old(u).username@).insert(
                        n@,
                        old(users)@[old(u).username@],
                    )
                    &&& res is WriteUsers
                    &&& final(u).stage == UpdateStage::NameWrite
                } else {
                    &&& final(users)@ == old(users)@
                    &&& res matches UpdateAction::MoveStorageFile(from, to) && from@ == spec_storage_path(
                        old(u).data_dir@,
                        n@,
                    ) && to@ == spec_storage_path(old(u).data_dir@, old(u).username@)
                    &&& final(u).failure matches Some(f) && f@ == (if old(users)@.contains_key(n@) {
                        Fail::NewUsernameExists
                    } else {
                        Fail::UserMissing
                    }).spec_message()
                    &&& final(u).stage == UpdateStage::MoveBack
                },
            },
        },
        old(u).stage == UpdateStage::NameWrite ==> final(users)@ == old(users)@ && match event {
            Err(m) => final(logins)@ == old(logins)@ && final(u).stage == UpdateStage::MoveBack && (final(u).failure matches Some(f)
                && f@ == m@) && match old(u).new_username {
                Some(n) => res matches UpdateAction::MoveStorageFile(from, to) && from@ == spec_storage_path(
                    old(u).data_dir@,
                    n@,
                ) && to@ == spec_storage_path(old(u).data_dir@, old(u).username@),
                None => res matches UpdateAction::Answer(Err(a)) && a@ == m@,
            },
            Ok(_) => final(logins)@ == old(logins)@.remove(old(u).username@) && (res matches UpdateAction::Answer(
                Ok(_),
            )) && final(u).stage == UpdateStage::Done,
        },
        old(u).stage == UpdateStage::MoveBack ==> final(users)@ == old(users)@ && final(logins)@ == old(logins)@
            && final(u).stage == UpdateStage::Done && match event {
            Err(m) => res matches UpdateAction::Answer(Err(a)) && a@ == m@,
            Ok(_) => res matches UpdateAction::Answer(Err(a)) && match old(u).failure {
                Some(f) => a@ == f@,
                None => a@ == Seq::<char>::empty(),
            },
        },
{
    match u.stage {
        UpdateStage::Begin => {
            match storage_file_name(u.data_dir.as_str(), u.username.as_str()) {
                Ok(p) => {
                    u.stage = UpdateStage::StorageWrite;
                    UpdateAction::WriteStorageFile(p)
                },
                Err(e) => {
                    u.stage = UpdateStage::Done;
                    UpdateAction::Answer(Err(e.message()))
                },
            }
        },
        UpdateStage::StorageWrite => {
            match event {
                Err(m) => {
                    u.stage = UpdateStage::Done;
                    UpdateAction::Answer(Err(m))
                },
                Ok(_) => match change_password(users, u.username.as_str(), u.password.as_str()) {
                    Ok(_) => {
                        u.stage = UpdateStage::PasswordWrite;
                        UpdateAction::WriteUsers
                    },
                    Err(e) => {
                        u.stage = UpdateStage::Done;
                        UpdateAction::Answer(Err(e.message()))
                    },
                },
            }
        },
        UpdateStage::PasswordWrite => {
            match event {
                Err(m) => {
                    u.stage = UpdateStage::Done;
                    UpdateAction::Answer(Err(m))
                },
                Ok(_) => {
                    logins.remove_user(u.username.as_str());
                    match &u.new_username {
                        None => {
                            u.stage = UpdateStage::Done;
                            UpdateAction::Answer(Ok(()))
                        },
                        Some(n) => {
                            if users.contains_key(n.as_str()) {
                                u.stage = UpdateStage::Done;
                                return UpdateAction::Answer(Err(Fail::NewUsernameExists.message()));
                            }
                            let from = storage_file_name(u.data_dir.as_str(), u.username.as_str());
                            let to = storage_file_name(u.data_dir.as_str(), n.as_str());
                            match (from, to) {
                                (Ok(from), Ok(to)) => {
                                    u.stage = UpdateStage::FileMove;
                                    UpdateAction::MoveStorageFile(from, to)
                                },
                                _ => {
                                    u.stage = UpdateStage::Done;
                                    UpdateAction::Answer(Err(Fail::NameNotAlphanumeric.message()))
                                },
                            }
                        },
                    }
                },
            }
        },
        UpdateStage::FileMove => {
            match event {
                Err(m) => {
                    u.stage = UpdateStage::Done;
                    UpdateAction::Answer(Err(m))
                },
                Ok(_) => {
                    let n = match &u.new_username {
                        Some(n) => n.clone(),
                        None => {
                            u.stage = UpdateStage::Done;
                            return UpdateAction::Answer(Ok(()));
                        },
                    };
                    match rename_user(users, u.username.as_str(), n.as_str()) {
                        Ok(_) => {
                            u.stage = UpdateStage::NameWrite;
                            UpdateAction::WriteUsers
                        },
                        Err(e) => {
                            u.failure = Some(e.message());
                            u.stage = UpdateStage::MoveBack;
                            let mut from = String::from_str(u.data_dir.as_str());
                            from.append("/");
                            from.append(n.as_str());
                            from.append(".edb");
                            let mut to = String::from_str(u.data_dir.as_str());
                            to.append("/");
                            to.append(u.username.as_str());
                            to.append(".edb");
                            UpdateAction::MoveStorageFile(from, to)
                        },
                    }
                },
            }
        },
        UpdateStage::NameWrite => {
            match event {
                Err(m) => {
                    u.stage = UpdateStage::MoveBack;
                    u.failure = Some(m.clone());
                    match &u.new_username {
                        Some(n) => {
                            let mut from = String::from_str(u.data_dir.as_str());
                            from.append("/");
                            from.append(n.as_str());
                            from.append(".edb");
                            let mut to = String::from_str(u.data_dir.as_str());
                            to.append("/");
                            to.append(u.username.as_str());
                            to.append(".edb");
                            UpdateAction::MoveStorageFile(from, to)
                        },
                        None => UpdateAction::Answer(Err(m)),
                    }
                },
                Ok(_) => {
                    logins.remove_user(u.username.as_str());
                    u.stage = UpdateStage::Done;
                    UpdateAction::Answer(Ok(()))
                },
            }
        },
        _ => {
            u.stage = UpdateStage::Done;
            match event {
                Err(m) => UpdateAction::Answer(Err(m)),
                Ok(_) => match &u.failure {
                    Some(f) => UpdateAction::Answer(Err(f.clone())),
                    None => UpdateAction::Answer(Err(String::new())),
                },
            }
        },
    }
}

} // verus!
