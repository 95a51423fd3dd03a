//! Request helpers of the API server: required and alphanumeric header
//! values, JSON error bodies and HTTP responses.

use vstd::prelude::*;
use crate::error::Fail;
use kern::http::server::ResponseData;
use crate::map::StrMap;
use crate::text::{all_alnum, chars_of, is_alnum_char};

verus! {

broadcast use vstd::string::group_string_axioms;

/// Whether `s` consists of Latin letters and decimal digits only
/// (`kern::string::is_alphanumeric`).
pub fn is_alphanumeric(s: &str) -> (res: bool)
    ensures
        res == all_alnum(s@),
{
    let cs = chars_of(s);
    for i in 0..cs.len()
        invariant
            cs@ == s@,
            forall|j: int| 0 <= j < i ==> is_alnum_char(#[trigger] cs@[j]),
    {
        let c = cs[i];
        if !(('a' <= c && c <= 'z') || ('A' <= c && c <= 'Z') || ('0' <= c && c <= '9')) {
            assert(!is_alnum_char(cs@[i as int]));
            return false;
        }
    }
    true
}

/// The value of `key`, or an error that names the missing key.
pub fn get_str<'a>(data: &'a StrMap<String>, key: &str) -> (res: Result<&'a String, Fail>)
    ensures
        res is Ok <==> data@.contains_key(key@),
        res matches Ok(v) ==> v@ == data@[key@],
        res matches Err(e) ==> e matches Fail::Required(k) && k@ == key@,
{
    match data.get(key) {
        Some(v) => Ok(v),
        None => Err(Fail::Required(String::from_str(key))),
    }
}

/// The value of `key` if it is a non-empty run of letters and digits, or an
/// error that names the key.
pub fn get_an<'a>(data: &'a StrMap<String>, key: &str) -> (res: Result<&'a String, Fail>)
    ensures
        res is Ok <==> data@.contains_key(key@) && data@[key@].len() > 0 && all_alnum(data@[key@]),
        res matches Ok(v) ==> v@ == data@[key@],
        res matches Err(e) ==> if data@.contains_key(key@) {
            e matches Fail::NotAlphanumeric(k) && k@ == key@
        } else {
            e matches Fail::Required(k) && k@ == key@
        },
{
    let an = get_str(data, key)?;
    if an.as_str().is_empty() || !is_alphanumeric(an.as_str()) {
        return Err(Fail::NotAlphanumeric(String::from_str(key)));
    }
    Ok(an)
}

/// The user name of a request, which must be alphanumeric.
pub fn get_username<'a>(data: &'a StrMap<String>) -> (res: Result<&'a String, Fail>)
    ensures
        res is Ok <==> data@.contains_key("username"@) && data@["username"@].len() > 0 && all_alnum(
            data@["username"@],
        ),
        res matches Ok(v) ==> v@ == data@["username"@],
        res matches Err(e) ==> if data@.contains_key("username"@) {
            e matches Fail::NotAlphanumeric(k) && k@ == "username"@
        } else {
            e matches Fail::Required(k) && k@ == "username"@
        },
{
    get_an(data, "username")
}

/// The lowercase hexadecimal digit of `n < 16`.
pub open spec fn hex_digit(n: u32) -> char {
    seq!['0', '1', '2', '3', '4', '5', '6', '7', '8', '9', 'a', 'b', 'c', 'd', 'e', 'f'][n as int]
}

/// How a JSON string writes `c`: quote, backslash and control characters are
/// escaped, the control characters without a short form as `\u00xx`.
pub open spec fn json_escape_char(c: char) -> Seq<char> {
    if c == '"' {
        seq!['\\', '"']
    } else if c == '\\' {
        seq!['\\', '\\']
    } else if c == '\u{8}' {
        seq!['\\', 'b']
    } else if c == '\t' {
        seq!['\\', 't']
    } else if c == '\n' {
        seq!['\\', 'n']
    } else if c == '\u{c}' {
        seq!['\\', 'f']
    } else if c == '\r' {
        seq!['\\', 'r']
    } else if (c as u32) < 0x20 {
        seq!['\\', 'u', '0', '0', hex_digit((c as u32) / 16), hex_digit((c as u32) % 16)]
    } else {
        seq![c]
    }
}

/// The characters of `s` as the contents of a JSON string.
pub open spec fn json_escape(s: Seq<char>) -> Seq<char>
    decreases s.len(),
{
    if s.len() == 0 {
        Seq::empty()
    } else {
        json_escape(s.drop_last()) + json_escape_char(s.last())
    }
}

/// The JSON string literal of `s`: the escaped characters between quotes.
pub open spec fn json_string_literal(s: Seq<char>) -> Seq<char> {
    seq!['"'] + json_escape(s) + seq!['"']
}

/// `json::stringify` of a string: its JSON string literal, with quote,
/// backslash and control characters escaped as `json_escape_char` says
/// (the table `ESCAPED` of the crate's code generator).
#[verifier::external_body]
fn json_string(t: &str) -> (res: String)
    ensures
        res@ == json_string_literal(t@),
{
    json::stringify(t)
}

fn push_str(s: &mut String, t: &str)
    ensures
        final(s)@ == old(s)@ + t@,
{
    s.append(t);
}

/// The JSON object `{"error":"…"}` with `message`.
pub open spec fn spec_error_json(message: Seq<char>) -> Seq<char> {
    "{\"error\":"@ + json_string_literal(message) + "}"@
}

/// The JSON object `{"error":"…"}` that reports `message`.
pub fn error_json(message: &str) -> (res: String)
    ensures
        res@ == spec_error_json(message@),
{
    let mut res = String::new();
    push_str(&mut res, "{\"error\":");
    push_str(&mut res, json_string(message).as_str());
    push_str(&mut res, "}");
    assert(res@ =~= spec_error_json(message@));
    res
}

/// The JSON object with the one string field `name`.
pub open spec fn spec_string_json(name: Seq<char>, value: Seq<char>) -> Seq<char> {
    "{"@ + json_string_literal(name) + ":"@ + json_string_literal(value) + "}"@
}

/// The JSON object `{"name":"value"}`.
pub fn string_json(name: &str, value: &str) -> (res: String)
    ensures
        res@ == spec_string_json(name@, value@),
{
    let mut res = String::new();
    push_str(&mut res, "{");
    push_str(&mut res, json_string(name).as_str());
    push_str(&mut res, ":");
    push_str(&mut res, json_string(value).as_str());
    push_str(&mut res, "}");
    assert(res@ =~= spec_string_json(name@, value@));
    res
}

/// The JSON object with the one boolean field `name`.
pub open spec fn spec_bool_json(name: Seq<char>, value: bool) -> Seq<char> {
    "{"@ + json_string_literal(name) + ":"@ + (if value { "true"@ } else { "false"@ }) + "}"@
}

/// The JSON object `{"name":true}` or `{"name":false}`.
pub fn bool_json(name: &str, value: bool) -> (res: String)
    ensures
        res@ == spec_bool_json(name@, value),
{
    let mut res = String::new();
    push_str(&mut res, "{");
    push_str(&mut res, json_string(name).as_str());
    push_str(&mut res, ":");
    if value {
        push_str(&mut res, "true");
    } else {
        push_str(&mut res, "false");
    }
    push_str(&mut res, "}");
    assert(res@ =~= spec_bool_json(name@, value));
    res
}

/// The headers that allow any origin, header and method.
pub open spec fn spec_cors_headers() -> Seq<(Seq<char>, Seq<char>)> {
    seq![
        ("access-control-allow-origin"@, "*"@),
        ("access-control-allow-headers"@, "*"@),
        ("access-control-allow-methods"@, "*"@),
    ]
}

/// The headers that allow any origin, header and method.
pub fn cors_headers() -> (res: Vec<(String, String)>)
    ensures
        res@.len() == 3,
        forall|i: int| 0 <= i < 3 ==> (#[trigger] res@[i]).0@ == spec_cors_headers()[i].0 && res@[i].1@
            == spec_cors_headers()[i].1,
{
    let mut res: Vec<(String, String)> = Vec::new();
    res.push((String::from_str("access-control-allow-origin"), String::from_str("*")));
    res.push((String::from_str("access-control-allow-headers"), String::from_str("*")));
    res.push((String::from_str("access-control-allow-methods"), String::from_str("*")));
    res
}

/// The extra status and headers of a `kern` HTTP response.
#[verifier::external_type_specification]
#[verifier::external_body]
pub struct ExResponseData<'a>(kern::http::server::ResponseData<'a>);

/// The extra headers that `data` holds in its `headers` map.
pub uninterp spec fn response_headers(data: kern::http::server::ResponseData) -> Map<Seq<char>, Seq<char>>;

/// The status that `data` holds.
pub uninterp spec fn response_status(data: kern::http::server::ResponseData) -> Seq<char>;

/// The start of a `kern` HTTP response: the status line, the server header
/// and the content type, as bytes.
pub open spec fn response_head(status: Seq<char>, content_type: Seq<char>) -> Seq<u8> {
    vstd::utf8::encode_utf8(
        "HTTP/1.1 "@ + status + "\r\nserver: ltheinrich.de/kern\r\ncontent-type: "@ + content_type
            + "; charset=utf-8"@,
    )
}

/// The header line `key: value` with the line break before it, as bytes.
pub open spec fn header_line(key: Seq<char>, value: Seq<char>) -> Seq<u8> {
    vstd::utf8::encode_utf8("\r\n"@ + key + ": "@ + value)
}

/// The content-length header for a body of `len` bytes (the final line
/// break counted) and the empty line that ends the head, as bytes.
pub open spec fn content_length_line(len: nat) -> Seq<u8> {
    vstd::utf8::encode_utf8("\r\ncontent-length: "@ + crate::totp::decimal(len + 2) + "\r\n\r\n"@)
}

/// `order` lists each name of `headers` exactly once.
pub open spec fn header_order(headers: Map<Seq<char>, Seq<char>>, order: Seq<Seq<char>>) -> bool {
    &&& order.no_duplicates()
    &&& forall|k: Seq<char>| #[trigger] order.contains(k) <==> headers.contains_key(k)
}

/// The header lines of `headers`, one per name, in the order `order`, as
/// bytes.
pub open spec fn header_block(headers: Map<Seq<char>, Seq<char>>, order: Seq<Seq<char>>) -> Seq<u8>
    decreases order.len(),
{
    if order.len() == 0 {
        Seq::empty()
    } else {
        header_block(headers, order.drop_last()) + header_line(order.last(), headers[order.last()])
    }
}

/// `res` is the `kern` HTTP response with `status`, `content_type`, the extra
/// `headers` and the body `content`: the status line, server header and
/// content type; then one line for each extra header and nothing else, in
/// an order that a `HashMap` decides; then the content length, an empty
/// line, the body and a final line break.
pub open spec fn http_response(
    res: Seq<u8>,
    status: Seq<char>,
    content_type: Seq<char>,
    headers: Map<Seq<char>, Seq<char>>,
    content: Seq<u8>,
) -> bool {
    exists|order: Seq<Seq<char>>|
        #[trigger] header_order(headers, order) && res == response_head(status, content_type) + header_block(
            headers,
            order,
        ) + content_length_line(content.len()) + content + seq![13u8, 10u8]
}

/// The map of header names to values that the pairs `p` give, later pairs
/// winning.
pub open spec fn pairs_map(p: Seq<(Seq<char>, Seq<char>)>) -> Map<Seq<char>, Seq<char>>
    decreases p.len(),
{
    if p.len() == 0 {
        Map::empty()
    } else {
        pairs_map(p.drop_last()).insert(p.last().0, p.last().1)
    }
}

/// `kern::http::server::ResponseData::new`: status `200 OK` and no extra
/// headers.
#[verifier::external_body]
fn response_data<'a>() -> (res: ResponseData<'a>)
    ensures
        response_status(res) == "200 OK"@,
        response_headers(res).dom() == Set::<Seq<char>>::empty(),
{
    kern::http::server::ResponseData::new()
}

/// Inserts the header `key: value` into the headers of `data` (a `HashMap`
/// field of it); the status stays.
#[verifier::external_body]
fn add_response_header<'a>(data: &mut kern::http::server::ResponseData<'a>, key: &'a str, value: &'a str)
    ensures
        response_status(*final(data)) == response_status(*old(data)),
        response_headers(*final(data)) == response_headers(*old(data)).insert(key@, value@),
{
    data.headers.insert(key, value);
}

/// `kern::http::server::respond`: the HTTP/1.1 response with the status
/// and extra headers of `data`, the content type `content_type` and the
/// body `content`. The order of the extra header lines follows a `HashMap`
/// and is not stated.
#[verifier::external_body]
fn respond(content: &[u8], content_type: &str, data: kern::http::server::ResponseData) -> (res: Vec<u8>)
    ensures
        http_response(res@, response_status(data), content_type@, response_headers(data), content@),
{
    kern::http::server::respond(content, content_type, Some(data))
}

/// An HTTP response with `content` of type `content_type` and headers that
/// allow any origin.
pub fn respond_cors(content: &[u8], content_type: &str) -> (res: Vec<u8>)
    ensures
        http_response(res@, "200 OK"@, content_type@, pairs_map(spec_cors_headers()), content@),
{
    let headers = cors_headers();
    let mut data = response_data();
    assert(spec_cors_headers().take(0) =~= Seq::<(Seq<char>, Seq<char>)>::empty());
    for i in 0..headers.len()
        invariant
            headers@.len() == 3,
            forall|j: int| 0 <= j < 3 ==> (#[trigger] headers@[j]).0@ == spec_cors_headers()[j].0 && headers@[j].1@
                == spec_cors_headers()[j].1,
            response_status(data) == "200 OK"@,
            response_headers(data) == pairs_map(spec_cors_headers().take(i as int)),
    {
        add_response_header(&mut data, headers[i].0.as_str(), headers[i].1.as_str());
        assert(spec_cors_headers().take(i + 1).drop_last() =~= spec_cors_headers().take(i as int));
        assert(headers@[i as int].0@ == spec_cors_headers()[i as int].0);
    }
    assert(spec_cors_headers().take(3) =~= spec_cors_headers());
    respond(content, content_type, data)
}

/// An HTTP response with the JSON `body` and headers that allow any origin.
pub fn jsonify(body: &str) -> (res: Vec<u8>)
    ensures
        http_response(
            res@,
            "200 OK"@,
            "application/json"@,
            pairs_map(spec_cors_headers()),
            vstd::utf8::encode_utf8(body@),
        ),
{
    respond_cors(body.as_bytes(), "application/json")
}

/// `res` is the HTTP response with the JSON object `{"error":"…"}` that
/// reports `message`, with headers that allow any origin.
pub open spec fn error_response(res: Seq<u8>, message: Seq<char>) -> bool {
    http_response(
        res,
        "200 OK"@,
        "application/json"@,
        pairs_map(spec_cors_headers()),
        vstd::utf8::encode_utf8(spec_error_json(message)),
    )
}

/// An HTTP response with the JSON object `{"error":"…"}` that reports
/// `message`.
pub fn json_error(message: &str) -> (res: Vec<u8>)
    ensures
        error_response(res@, message@),
{
    let body = error_json(message);
    jsonify(body.as_str())
}

} // verus!
