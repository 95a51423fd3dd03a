//! The error type of the library.

use vstd::prelude::*;
use crate::hex::HexError;
use crate::text::string_push;
use crate::totp::decimal;

verus! {

broadcast use vstd::string::group_string_axioms;

/// What `std::str::Utf8Error` reports for `bytes` that are not valid UTF-8:
/// the length of the valid prefix (`valid_up_to`) and the length of the
/// invalid sequence after it, or `None` where the input ends inside a
/// sequence (`error_len`).
pub uninterp spec fn utf8_error(bytes: Seq<u8>) -> (usize, Option<usize>);

/// The failure that reading `bytes` as UTF-8 reports.
pub open spec fn invalid_utf8(bytes: Seq<u8>) -> Fail {
    Fail::InvalidUtf8 { valid_up_to: utf8_error(bytes).0, error_len: utf8_error(bytes).1 }
}

/// What `format!("{:?}", c)` writes for the character `c`.
pub uninterp spec fn char_debug(c: char) -> Seq<char>;

/// `format!("{:?}", c)`: the character in single quotes, escaped as Rust
/// source writes it; the text is named, not stated.
#[verifier::external_body]
fn debug_char(c: char) -> (res: String)
    ensures
        res@ == char_debug(c),
{
    format!("{:?}", c)
}

/// Why Argon2 refused to hash.
#[derive(Debug, Clone, Copy, PartialEq, Eq, Structural)]
pub enum Argon2Error {
    /// The password is longer than 32 bits can count.
    PwdTooLong,
    /// The salt is shorter than 8 bytes.
    SaltTooShort,
    /// The salt is longer than 32 bits can count.
    SaltTooLong,
}

/// The decimal text of `n`.
fn decimal_text(n: usize) -> (res: String)
    ensures
        res@ == decimal(n as nat),
    decreases n,
{
    let digits: [char; 10] = ['0', '1', '2', '3', '4', '5', '6', '7', '8', '9'];
    assert(digits@ == seq!['0', '1', '2', '3', '4', '5', '6', '7', '8', '9']);
    if n < 10 {
        let mut res = String::new();
        string_push(&mut res, digits[n]);
        assert(res@ =~= decimal(n as nat));
        res
    } else {
        let mut res = decimal_text(n / 10);
        string_push(&mut res, digits[n % 10]);
        assert(res@ =~= decimal(n as nat));
        res
    }
}

/// `a` followed by `b`.
fn joined(a: &str, b: &str) -> (res: String)
    ensures
        res@ == a@ + b@,
{
    let mut res = String::from_str(a);
    res.append(b);
    res
}

/// Why an operation of the library failed.
#[derive(Debug)]
pub enum Fail {
    /// A TOTP secret that is no valid Base32 (RFC 4648) text.
    InvalidBase32Secret,
    /// The system clock reads a time before the UNIX epoch.
    ClockBeforeEpoch,
    /// An encryption key that is not exactly 32 bytes long.
    InvalidKeyLength,
    /// Stored data that does not decrypt under the given key.
    DecryptFailed,
    /// Data that could not be encrypted (it is too long for AES-GCM).
    EncryptFailed,
    /// Bytes that are not valid UTF-8: how many bytes before the fault are
    /// valid, and how long the invalid sequence is (`None` where the input
    /// ends inside a sequence).
    InvalidUtf8 { valid_up_to: usize, error_len: Option<usize> },
    /// Argon2 refused the password or salt.
    Argon2Failed(Argon2Error),
    /// Text that is not valid hexadecimal.
    Hex(HexError),
    /// A required value named by the field is missing.
    Required(String),
    /// A value named by the field is empty or not alphanumeric.
    NotAlphanumeric(String),
    /// A storage file name that is empty or not alphanumeric.
    NameNotAlphanumeric,
    /// Wrong credentials or an invalid login token.
    Unauthenticated,
    /// A registration under a name that is taken.
    UsernameExists,
    /// A rename to a user name that is taken.
    NewUsernameExists,
    /// A user that has no entry in the user database.
    UserMissing,
    /// An entry of a storage file that does not exist.
    EntryMissing,
    /// A user name that has no account.
    UsernameMissing,
    /// A value named by the field that is not a string.
    NotAString(String),
    /// A request whose method is not `POST`.
    NotPost,
    /// A request whose body is empty or white space.
    EmptyBody,
    /// A request whose content type is not `application/json`.
    NotJsonContentType,
    /// A request whose body is no JSON.
    NotJson,
}

impl Fail {
    /// The text of the message that reports the failure.
    pub open spec fn spec_message(&self) -> Seq<char> {
        match self {
            Fail::InvalidBase32Secret => "invalid base32 secret"@,
            Fail::ClockBeforeEpoch => "second time provided was later than self"@,
            Fail::InvalidKeyLength => "could not convert slice to array"@,
            Fail::DecryptFailed => "could not decrypt secure storage data"@,
            Fail::EncryptFailed => "could not encrypt secure storage data"@,
            Fail::InvalidUtf8 { valid_up_to, error_len } => match error_len {
                Some(n) => "invalid utf-8 sequence of "@ + decimal(*n as nat) + " bytes from index "@ + decimal(
                    *valid_up_to as nat,
                ),
                None => "incomplete utf-8 byte sequence from index "@ + decimal(*valid_up_to as nat),
            },
            Fail::Argon2Failed(Argon2Error::PwdTooLong) => "Password is too long"@,
            Fail::Argon2Failed(Argon2Error::SaltTooShort) => "Salt is too short"@,
            Fail::Argon2Failed(Argon2Error::SaltTooLong) => "Salt is too long"@,
            Fail::Hex(HexError::OddLength) => "Odd number of digits"@,
            Fail::Hex(HexError::InvalidStringLength) => "Invalid string length"@,
            Fail::Hex(HexError::InvalidHexCharacter { c, index }) => "Invalid character "@ + char_debug(*c)
                + " at position "@ + decimal(*index as nat),
            Fail::Required(key) => key@ + " required"@,
            Fail::NotAlphanumeric(key) => key@ + " is not alphanumeric"@,
            Fail::NameNotAlphanumeric => "name not alphanumeric"@,
            Fail::Unauthenticated => "unauthenticated"@,
            Fail::UsernameExists => "username already exists"@,
            Fail::NewUsernameExists => "new username already exists"@,
            Fail::UserMissing => "internal error: user entry does not exist in cache"@,
            Fail::EntryMissing => Seq::<char>::empty(),
            Fail::UsernameMissing => "username does not exist"@,
            Fail::NotAString(key) => key@ + " is not a string"@,
            Fail::NotPost => "POST method required"@,
            Fail::EmptyBody => "Empty body"@,
            Fail::NotJsonContentType => "Content-Type is not application/json"@,
            Fail::NotJson => "Request body is not JSON"@,
        }
    }

    /// The message that reports the failure.
    pub fn message(&self) -> (res: String)
        ensures
            res@ == self.spec_message(),
    {
        match self {
            Fail::InvalidBase32Secret => String::from_str("invalid base32 secret"),
            Fail::ClockBeforeEpoch => String::from_str("second time provided was later than self"),
            Fail::InvalidKeyLength => String::from_str("could not convert slice to array"),
            Fail::DecryptFailed => String::from_str("could not decrypt secure storage data"),
            Fail::EncryptFailed => String::from_str("could not encrypt secure storage data"),
            Fail::InvalidUtf8 { valid_up_to, error_len } => match error_len {
                Some(n) => {
                    let mut m = joined("invalid utf-8 sequence of ", decimal_text(*n).as_str());
                    m.append(" bytes from index ");
                    m.append(decimal_text(*valid_up_to).as_str());
                    m
                },
                None => joined("incomplete utf-8 byte sequence from index ", decimal_text(*valid_up_to).as_str()),
            },
            Fail::Argon2Failed(Argon2Error::PwdTooLong) => String::from_str("Password is too long"),
            Fail::Argon2Failed(Argon2Error::SaltTooShort) => String::from_str("Salt is too short"),
            Fail::Argon2Failed(Argon2Error::SaltTooLong) => String::from_str("Salt is too long"),
            Fail::Hex(e) => match e {
                HexError::OddLength => String::from_str("Odd number of digits"),
                HexError::InvalidStringLength => String::from_str("Invalid string length"),
                HexError::InvalidHexCharacter { c, index } => {
                    let mut m = joined("Invalid character ", debug_char(*c).as_str());
                    m.append(" at position ");
                    m.append(decimal_text(*index).as_str());
                    m
                },
            },
            Fail::Required(key) => {
                let mut m = key.clone();
                m.append(" required");
                m
            },
            Fail::NotAlphanumeric(key) => {
                let mut m = key.clone();
                m.append(" is not alphanumeric");
                m
            },
            Fail::NameNotAlphanumeric => String::from_str("name not alphanumeric"),
            Fail::Unauthenticated => String::from_str("unauthenticated"),
            Fail::UsernameExists => String::from_str("username already exists"),
            Fail::NewUsernameExists => String::from_str("new username already exists"),
            Fail::UserMissing => String::from_str("internal error: user entry does not exist in cache"),
            Fail::EntryMissing => String::new(),
            Fail::UsernameMissing => String::from_str("username does not exist"),
            Fail::NotAString(key) => {
                let mut m = key.clone();
                m.append(" is not a string");
                m
            },
            Fail::NotPost => String::from_str("POST method required"),
            Fail::EmptyBody => String::from_str("Empty body"),
            Fail::NotJsonContentType => String::from_str("Content-Type is not application/json"),
            Fail::NotJson => String::from_str("Request body is not JSON"),
        }
    }
}

} // verus!
