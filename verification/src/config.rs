//! The server configuration file: `name=value` lines for the port, the
//! address, the number of threads and the TLS certificate and key.

use vstd::prelude::*;
use crate::map::text_eq;
use crate::text::{chars_of, find_char, index_of, lemma_index_of, trim, trim_bounds};

verus! {

broadcast use vstd::string::group_string_axioms;

/// The value of the decimal digit `c`.
pub open spec fn digit_value(c: char) -> int {
    (c as u32) - ('0' as u32)
}

/// `c` is a decimal digit.
pub open spec fn is_digit(c: char) -> bool {
    '0' <= c && c <= '9'
}

/// The number that the decimal digits `d` write.
pub open spec fn decimal_value(d: Seq<char>) -> nat
    decreases d.len(),
{
    if d.len() == 0 {
        0
    } else {
        (decimal_value(d.drop_last()) * 10 + digit_value(d.last())) as nat
    }
}

/// Every character of `d` is a decimal digit.
pub open spec fn all_digits(d: Seq<char>) -> bool {
    forall|i: int| 0 <= i < d.len() ==> is_digit(#[trigger] d[i])
}

/// What `u8::from_str` gives for `s`: an optional `+`, then at least one
/// decimal digit, for a number of at most 255.
pub open spec fn spec_parse_u8(s: Seq<char>) -> Option<u8> {
    let d = if s.len() > 0 && s[0] == '+' { s.drop_first() } else { s };
    if d.len() > 0 && all_digits(d) && decimal_value(d) <= 255 {
        Some(decimal_value(d) as u8)
    } else {
        None
    }
}

/// Parses `s` as a `u8` the way `u8::from_str` does.
pub fn parse_u8(s: &str) -> (res: Option<u8>)
    ensures
        res == spec_parse_u8(s@),
{
    let cs = chars_of(s);
    let start: usize = if cs.len() > 0 && cs[0] == '+' { 1 } else { 0 };
    let ghost d = if s@.len() > 0 && s@[0] == '+' { s@.drop_first() } else { s@ };
    assert(d =~= cs@.skip(start as int));
    if start == cs.len() {
        return None;
    }
    let mut acc: u32 = 0;
    let mut i: usize = start;
    while i < cs.len()
        invariant
            start <= i <= cs@.len(),
            cs@ == s@,
            d == cs@.skip(start as int),
            d == (if s@.len() > 0 && s@[0] == '+' { s@.drop_first() } else { s@ }),
            forall|j: int| 0 <= j < i - start ==> is_digit(#[trigger] d[j]),
            acc as nat == if decimal_value(d.take(i - start)) < 256 { decimal_value(d.take(i - start)) } else { 256 },
        decreases cs@.len() - i,
    {
        let c = cs[i];
        if !('0' <= c && c <= '9') {
            assert(!is_digit(d[i - start]));
            assert(!all_digits(d));
            assert(spec_parse_u8(s@) is None);
            return None;
        }
        assert(d.take(i + 1 - start).drop_last() =~= d.take(i - start));
        assert(d.take(i + 1 - start).last() == c);
        let digit = (c as u32) - ('0' as u32);
        let next = acc * 10 + digit;
        acc = if next < 256 { next } else { 256 };
        i = i + 1;
    }
    assert(d.take(i - start) =~= d);
    assert(all_digits(d));
    if acc <= 255 {
        Some(acc as u8)
    } else {
        None
    }
}

/// The configured port, address, threads, certificate path and key path.
pub type ConfValues = (Seq<char>, Seq<char>, u8, Seq<char>, Seq<char>);

/// The configuration after the option `name` is given `value`: `port`,
/// `addr`, `cert` and `key` take the value, `threads` takes it where it is a
/// valid `u8`; any other name changes nothing.
pub open spec fn conf_set(c: ConfValues, name: Seq<char>, value: Seq<char>) -> ConfValues {
    if name == "port"@ {
        (value, c.1, c.2, c.3, c.4)
    } else if name == "addr"@ {
        (c.0, value, c.2, c.3, c.4)
    } else if name == "threads"@ {
        match spec_parse_u8(value) {
            Some(n) => (c.0, c.1, n, c.3, c.4),
            None => c,
        }
    } else if name == "cert"@ {
        (c.0, c.1, c.2, value, c.4)
    } else if name == "key"@ {
        (c.0, c.1, c.2, c.3, value)
    } else {
        c
    }
}

/// The configuration after one line: `name=value`, split at the first `=`
/// and both trimmed; a line without `=` changes nothing.
pub open spec fn conf_line(c: ConfValues, line: Seq<char>) -> ConfValues {
    match index_of(line, '=') {
        Some(p) => conf_set(c, trim(line.take(p)), trim(line.skip(p + 1))),
        None => c,
    }
}

/// The configuration after the lines of `s`, first to last.
pub open spec fn conf_lines(c: ConfValues, s: Seq<char>) -> ConfValues
    decreases s.len(),
{
    match index_of(s, '\n') {
        Some(i) => {
            proof {
                lemma_index_of(s, '\n');
            }
            conf_lines(conf_line(c, s.take(i)), s.skip(i + 1))
        },
        None => conf_line(c, s),
    }
}

/// Gives the option `name` the value `value` (see `conf_set`).
pub fn set_option<'a>(
    name: &str,
    value: &'a str,
    port: &mut &'a str,
    addr: &mut &'a str,
    threads: &mut u8,
    cert: &mut &'a str,
    key: &mut &'a str,
)
    ensures
        ((*final(port))@, (*final(addr))@, *final(threads), (*final(cert))@, (*final(key))@)
            == conf_set(((*old(port))@, (*old(addr))@, *old(threads), (*old(cert))@, (*old(key))@), name@, value@),
{
    let n = chars_of(name);
    proof {
        reveal_strlit("port");
        reveal_strlit("addr");
        reveal_strlit("threads");
        reveal_strlit("cert");
        reveal_strlit("key");
    }
    let port_name = chars_of("port");
    let addr_name = chars_of("addr");
    let threads_name = chars_of("threads");
    let cert_name = chars_of("cert");
    let key_name = chars_of("key");
    if text_eq(n.as_slice(), port_name.as_slice()) {
        *port = value;
    } else if text_eq(n.as_slice(), addr_name.as_slice()) {
        *addr = value;
    } else if text_eq(n.as_slice(), threads_name.as_slice()) {
        match parse_u8(value) {
            Some(v) => {
                *threads = v;
            },
            None => {},
        }
    } else if text_eq(n.as_slice(), cert_name.as_slice()) {
        *cert = value;
    } else if text_eq(n.as_slice(), key_name.as_slice()) {
        *key = value;
    }
}

/// Reads a configuration file: each line `name=value` sets an option (see
/// `conf_set`), later lines winning; other lines are ignored.
pub fn conf_file<'a>(
    buf: &'a str,
    port: &mut &'a str,
    addr: &mut &'a str,
    threads: &mut u8,
    cert: &mut &'a str,
    key: &mut &'a str,
)
    ensures
        ((*final(port))@, (*final(addr))@, *final(threads), (*final(cert))@, (*final(key))@)
            == conf_lines(((*old(port))@, (*old(addr))@, *old(threads), (*old(cert))@, (*old(key))@), buf@),
{
    let cs = chars_of(buf);
    let n = cs.len();
    let mut start: usize = 0;
    assert(cs@.skip(0) =~= cs@);
    loop
        invariant
            n == cs@.len(),
            start <= cs@.len(),
            cs@ == buf@,
            conf_lines(((*port)@, (*addr)@, *threads, (*cert)@, (*key)@), cs@.skip(start as int))
                == conf_lines(((*old(port))@, (*old(addr))@, *old(threads), (*old(cert))@, (*old(key))@), buf@),
        decreases cs@.len() - start,
    {
        let ghost rest = cs@.skip(start as int);
        let (end, last) = match find_char(cs.as_slice(), '\n', start) {
            Some(j) => {
                proof {
                    lemma_index_of(rest, '\n');
                }
                (j, false)
            },
            None => (n, true),
        };
        let ghost line = cs@.subrange(start as int, end as int);
        assert(last ==> line =~= rest);
        assert(!last ==> line =~= rest.take(end - start));
        assert(!last ==> rest.skip(end - start + 1) =~= cs@.skip(end + 1));
        match find_char(cs.as_slice(), '=', start) {
            Some(p) if p < end => {
                proof {
                    lemma_index_of(cs@.skip(start as int), '=');
                    assert forall|j: int| 0 <= j < p - start implies #[trigger] line[j] != '=' by {
                        assert(line[j] == cs@.skip(start as int)[j]);
                    }
                    assert(line[p - start] == '=');
                    assert(index_of(line, '=') == Some(p - start)) by {
                        lemma_index_of(line, '=');
                        match index_of(line, '=') {
                            Some(q) => {
                                if q < p - start {
                                } else if q > p - start {
                                }
                            },
                            None => {},
                        }
                    }
                }
                let (ks, ke) = trim_bounds(cs.as_slice(), start, p);
                let (vs, ve) = trim_bounds(cs.as_slice(), p + 1, end);
                assert(cs@.subrange(start as int, p as int) =~= line.take(p - start));
                assert(cs@.subrange(p + 1, end as int) =~= line.skip(p - start + 1));
                let name_chars = crate::text::sub_chars(cs.as_slice(), ks, ke);
                let name = crate::text::string_of(name_chars.as_slice());
                let value = buf.substring_char(vs, ve);
                set_option(name.as_str(), value, port, addr, threads, cert, key);
            },
            found => {
                proof {
                    lemma_index_of(cs@.skip(start as int), '=');
                    lemma_index_of(line, '=');
                    match index_of(line, '=') {
                        Some(q) => {
                            assert(cs@.skip(start as int)[q] == line[q]);
                        },
                        None => {},
                    }
                }
            },
        }
        if last {
            return ;
        }
        start = end + 1;
    }
}

} // verus!
