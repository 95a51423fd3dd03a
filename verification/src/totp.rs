//! Time-based one-time passwords (RFC 6238) from Base32 secrets.

use vstd::prelude::*;
use crate::error::Fail;
use crate::text::string_push;

verus! {

/// The hash function under the HMAC of a generator.
#[derive(Debug, Clone, Copy, PartialEq, Eq, Structural)]
pub enum HmacAlgorithm {
    /// HMAC-SHA1 (the TOTP default).
    Sha1,
    /// HMAC-SHA256.
    Sha256,
    /// HMAC-SHA384.
    Sha384,
    /// HMAC-SHA512.
    Sha512,
}

impl HmacAlgorithm {
    /// The length in bytes of an HMAC tag under this algorithm.
    pub open spec fn tag_len(self) -> nat {
        match self {
            HmacAlgorithm::Sha1 => 20,
            HmacAlgorithm::Sha256 => 32,
            HmacAlgorithm::Sha384 => 48,
            HmacAlgorithm::Sha512 => 64,
        }
    }
}

/// What `base32::decode` with the RFC 4648 alphabet gives for `text`.
pub uninterp spec fn base32_rfc4648_decoded(text: Seq<char>) -> Option<Seq<u8>>;

/// `base32::decode(Alphabet::RFC4648 { padding: false }, text)`: the decoded
/// secret, or `None` where `text` is no Base32 text. What it decodes to is
/// named, not stated.
#[verifier::external_body]
fn base32_decode(text: &str) -> (res: Option<Vec<u8>>)
    ensures
        res is Some <==> base32_rfc4648_decoded(text@) is Some,
        res matches Some(v) ==> base32_rfc4648_decoded(text@) == Some(v@) && v@.len() <= text@.len(),
{
    base32::decode(base32::Alphabet::RFC4648 { padding: false }, text)
}

/// What `ring::hmac::sign` gives as the tag of `msg` under `key`.
pub uninterp spec fn hmac_tag(algorithm: HmacAlgorithm, key: Seq<u8>, msg: Seq<u8>) -> Seq<u8>;

/// `ring::hmac::sign` with a key made by `ring::hmac::Key::new`: the HMAC tag
/// of `msg`, as long as the digest of `algorithm`. The tag itself is named,
/// not stated. `ring` panics where the bit length of a hashed input does not
/// fit in a `u64`; keys and messages of at most 2^60 bytes stay clear of it.
#[verifier::external_body]
fn hmac_sign(algorithm: HmacAlgorithm, key: &[u8], msg: &[u8]) -> (res: Vec<u8>)
    requires
        key@.len() <= 0x1000_0000_0000_0000,
        msg@.len() <= 0x1000_0000_0000_0000,
    ensures
        res@ == hmac_tag(algorithm, key@, msg@),
        res@.len() == algorithm.tag_len(),
{
    let alg = match algorithm {
        HmacAlgorithm::Sha1 => ring::hmac::HMAC_SHA1_FOR_LEGACY_USE_ONLY,
        HmacAlgorithm::Sha256 => ring::hmac::HMAC_SHA256,
        HmacAlgorithm::Sha384 => ring::hmac::HMAC_SHA384,
        HmacAlgorithm::Sha512 => ring::hmac::HMAC_SHA512,
    };
    ring::hmac::sign(&ring::hmac::Key::new(alg, key), msg).as_ref().to_vec()
}

/// `10^n`.
pub open spec fn pow10(n: nat) -> nat
    decreases n,
{
    if n == 0 {
        1
    } else {
        10 * pow10((n - 1) as nat)
    }
}

/// The decimal digit of `d < 10`.
pub open spec fn digit_char(d: nat) -> char {
    seq!['0', '1', '2', '3', '4', '5', '6', '7', '8', '9'][d as int]
}

/// The decimal representation of `n`, without leading zeros.
pub open spec fn decimal(n: nat) -> Seq<char>
    decreases n,
{
    if n < 10 {
        seq![digit_char(n)]
    } else {
        decimal(n / 10).push(digit_char(n % 10))
    }
}

/// `s` with zeros put in front until it is `width` characters long.
pub open spec fn zero_pad(s: Seq<char>, width: nat) -> Seq<char> {
    if s.len() >= width {
        s
    } else {
        Seq::new((width - s.len()) as nat, |i: int| '0') + s
    }
}

/// The eight big-endian bytes of `x`.
pub open spec fn be_bytes(x: u64) -> Seq<u8> {
    seq![
        (x >> 56) as u8,
        (x >> 48) as u8,
        (x >> 40) as u8,
        (x >> 32) as u8,
        (x >> 24) as u8,
        (x >> 16) as u8,
        (x >> 8) as u8,
        x as u8,
    ]
}

/// The 31-bit number that dynamic truncation (RFC 4226) takes from `tag`: four
/// bytes from the offset that the low nibble of the last byte gives.
pub open spec fn truncated_code(tag: Seq<u8>) -> nat {
    let offset = (tag[tag.len() - 1] % 16) as int;
    ((tag[offset] % 128) * 0x100_0000 + tag[offset + 1] * 0x1_0000 + tag[offset + 2] * 0x100
        + tag[offset + 3]) as nat
}

/// The token of `digits` decimal digits for `tag`.
pub open spec fn token_of_tag(tag: Seq<u8>, digits: nat) -> Seq<char> {
    zero_pad(decimal(truncated_code(tag) % pow10(digits)), digits)
}


/// `10^n` is positive.
proof fn lemma_pow10_positive(n: nat)
    ensures
        pow10(n) >= 1,
    decreases n,
{
    if n > 0 {
        lemma_pow10_positive((n - 1) as nat);
    }
}

/// The decimal representation of `n < 10^k` (with `k >= 1`) has at most
/// `k` characters, all of them decimal digits.
proof fn lemma_decimal_digits(n: nat, k: nat)
    requires
        1 <= k,
        n < pow10(k),
    ensures
        decimal(n).len() <= k,
        forall|i: int| 0 <= i < decimal(n).len() ==> '0' <= #[trigger] decimal(n)[i] <= '9',
    decreases n,
{
    if n < 10 {
        assert(decimal(n) == seq![digit_char(n)]);
        assert('0' <= digit_char(n) <= '9');
    } else {
        assert(k >= 2) by {
            reveal_with_fuel(pow10, 2);
        }
        let k1 = (k - 1) as nat;
        assert(pow10(k) == 10 * pow10(k1));
        assert(n / 10 < pow10(k1)) by (nonlinear_arith)
            requires
                n < 10 * pow10(k1),
        ;
        lemma_decimal_digits(n / 10, k1);
        let d = decimal(n / 10);
        assert(decimal(n) == d.push(digit_char(n % 10)));
        assert('0' <= digit_char(n % 10) <= '9');
        assert forall|i: int| 0 <= i < decimal(n).len() implies '0' <= #[trigger] decimal(n)[i] <= '9' by {
            if i < d.len() {
                assert(decimal(n)[i] == d[i]);
            }
        }
    }
}

/// A token of `digits >= 1` digits has exactly `digits` characters, each a
/// decimal digit: the code is cut to its last `digits` digits and padded with
/// leading zeros.
pub proof fn lemma_token_digits(tag: Seq<u8>, digits: nat)
    requires
        1 <= digits,
    ensures
        token_of_tag(tag, digits).len() == digits,
        forall|i: int| 0 <= i < digits ==> '0' <= #[trigger] token_of_tag(tag, digits)[i] <= '9',
{
    lemma_pow10_positive(digits);
    let code = truncated_code(tag) % pow10(digits);
    lemma_decimal_digits(code, digits);
    let t = token_of_tag(tag, digits);
    let d = decimal(code);
    assert forall|i: int| 0 <= i < digits implies '0' <= #[trigger] t[i] <= '9' by {
        if d.len() < digits {
            let pad = (digits - d.len()) as nat;
            if i >= pad {
                assert(t[i] == d[i - pad]);
            }
        }
    }
}

/// The eight big-endian bytes of `x` (`u64::to_be_bytes`).
fn u64_be_bytes(x: u64) -> (res: Vec<u8>)
    ensures
        res@ == be_bytes(x),
{
    let res = vec![
        (x >> 56) as u8,
        (x >> 48) as u8,
        (x >> 40) as u8,
        (x >> 32) as u8,
        (x >> 24) as u8,
        (x >> 16) as u8,
        (x >> 8) as u8,
        x as u8,
    ];
    assert(res@ =~= be_bytes(x));
    res
}

/// `10^n` for `n <= 9`.
fn pow10_u32(n: usize) -> (res: u32)
    requires
        n <= 9,
    ensures
        res == pow10(n as nat),
        res >= 1,
{
    let mut res: u32 = 1;
    let mut i: usize = 0;
    while i < n
        invariant
            i <= n <= 9,
            res == pow10(i as nat),
            1 <= res <= 1_000_000_000,
        decreases n - i,
    {
        proof {
            reveal_with_fuel(pow10, 10);
            assert(i < 9);
            assert(pow10((i + 1) as nat) == 10 * pow10(i as nat));
            assert(pow10(i as nat) <= 100_000_000) by {
                lemma_pow10_mono(i as nat, 8);
            }
        }
        res = res * 10;
        i = i + 1;
    }
    res
}

/// `10^a <= 10^b` for `a <= b`, and `10^8 == 100_000_000`.
proof fn lemma_pow10_mono(a: nat, b: nat)
    requires
        a <= b,
    ensures
        pow10(a) <= pow10(b),
        pow10(8) == 100_000_000,
    decreases b,
{
    reveal_with_fuel(pow10, 10);
    if a < b {
        lemma_pow10_mono(a, (b - 1) as nat);
    }
}

/// Appends the decimal representation of `n` to `out`.
fn push_decimal(n: u32, out: &mut Vec<char>)
    ensures
        final(out)@ == old(out)@ + decimal(n as nat),
    decreases n,
{
    let digits: [char; 10] = ['0', '1', '2', '3', '4', '5', '6', '7', '8', '9'];
    assert(digits@ == seq!['0', '1', '2', '3', '4', '5', '6', '7', '8', '9']);
    if n < 10 {
        out.push(digits[n as usize]);
        assert(final(out)@ =~= old(out)@ + decimal(n as nat));
    } else {
        push_decimal(n / 10, out);
        out.push(digits[(n % 10) as usize]);
        assert(final(out)@ =~= old(out)@ + decimal(n as nat));
    }
}

/// The 31-bit number that dynamic truncation takes from `tag`.
fn truncate_tag(tag: &[u8]) -> (res: u32)
    requires
        tag@.len() >= 20,
    ensures
        res == truncated_code(tag@),
{
    let last = tag[tag.len() - 1];
    let offset = (last & 0xf) as usize;
    assert(last & 0xf == last % 16) by (bit_vector);
    let b0 = tag[offset];
    let b1 = tag[offset + 1];
    let b2 = tag[offset + 2];
    let b3 = tag[offset + 3];
    let code: u32 = (((b0 as u32) & 0x7f) << 24) | (((b1 as u32) & 0xff) << 16) | (((b2 as u32)
        & 0xff) << 8) | ((b3 as u32) & 0xff);
    assert(code == (b0 % 128) * 0x100_0000 + b1 * 0x1_0000 + b2 * 0x100 + b3) by (bit_vector)
        requires
            code == (((b0 as u32) & 0x7f) << 24) | (((b1 as u32) & 0xff) << 16) | (((b2 as u32)
                & 0xff) << 8) | ((b3 as u32) & 0xff),
    ;
    code
}

/// The token of `digits` decimal digits for `tag`: the truncated code modulo
/// `10^digits`, with zeros in front up to `digits` characters.
fn tag_token(tag: &[u8], digits: usize) -> (res: String)
    requires
        tag@.len() >= 20,
        digits <= 9,
    ensures
        res@ == token_of_tag(tag@, digits as nat),
{
    let code = truncate_tag(tag);
    let value = code % pow10_u32(digits);
    let mut number: Vec<char> = Vec::new();
    push_decimal(value, &mut number);
    assert(number@ =~= decimal(value as nat));
    let mut res = String::new();
    let mut i: usize = number.len();
    while i < digits
        invariant
            number.len() <= i <= digits || (digits <= number.len() && i == number.len()),
            res@ == Seq::new((i - number@.len()) as nat, |j: int| '0'),
        decreases digits - i,
    {
        string_push(&mut res, '0');
        assert(res@ =~= Seq::new((i + 1 - number@.len()) as nat, |j: int| '0'));
        i = i + 1;
    }
    for k in 0..number.len()
        invariant
            res@ == Seq::new((i - number@.len()) as nat, |j: int| '0') + number@.take(k as int),
    {
        string_push(&mut res, number[k]);
        assert(number@.take(k + 1) =~= number@.take(k as int).push(number@[k as int]));
        assert(res@ =~= Seq::new((i - number@.len()) as nat, |j: int| '0') + number@.take(k + 1));
    }
    assert(number@.take(number@.len() as int) =~= number@);
    assert(res@ =~= zero_pad(number@, digits as nat));
    res
}

/// TOTP generator.
#[derive(Debug, Clone)]
pub struct Generator {
    secret: Vec<u8>,
    algorithm: HmacAlgorithm,
    digits: usize,
}

impl Generator {
    /// The decoded secret.
    pub closed spec fn secret(&self) -> Seq<u8> {
        self.secret@
    }

    /// The hash function of the HMAC.
    pub closed spec fn hmac_algorithm(&self) -> HmacAlgorithm {
        self.algorithm
    }

    /// The number of digits of a token.
    pub closed spec fn num_digits(&self) -> nat {
        self.digits as nat
    }

    /// The token at UNIX time `time` (seconds), with the counter `time / 30`.
    pub open spec fn spec_token_at(&self, time: u64) -> Seq<char> {
        token_of_tag(
            hmac_tag(self.hmac_algorithm(), self.secret(), be_bytes(time / 30)),
            self.num_digits(),
        )
    }

    /// Creates a generator for the Base32 (RFC 4648) `secret`, with HMAC-SHA1
    /// and six digits.
    pub fn new(secret: &str) -> (res: Result<Self, Fail>)
        ensures
            res is Ok <==> base32_rfc4648_decoded(secret@) is Some,
            res matches Ok(g) ==> {
                &&& Some(g.secret()) == base32_rfc4648_decoded(secret@)
                &&& g.secret().len() <= secret@.len()
                &&& g.hmac_algorithm() == HmacAlgorithm::Sha1
                &&& g.num_digits() == 6
            },
            res matches Err(e) ==> e == Fail::InvalidBase32Secret,
    {
        match base32_decode(secret) {
            Some(secret) => Ok(Generator { secret, algorithm: HmacAlgorithm::Sha1, digits: 6 }),
            None => Err(Fail::InvalidBase32Secret),
        }
    }

    /// Changes the number of digits of a token.
    pub fn digits(self, digits: usize) -> (res: Self)
        ensures
            res.secret() == self.secret(),
            res.hmac_algorithm() == self.hmac_algorithm(),
            res.num_digits() == digits,
    {
        Generator { digits, ..self }
    }

    /// Changes the hash function of the HMAC.
    pub fn algorithm(self, algorithm: HmacAlgorithm) -> (res: Self)
        ensures
            res.secret() == self.secret(),
            res.hmac_algorithm() == algorithm,
            res.num_digits() == self.num_digits(),
    {
        Generator { algorithm, ..self }
    }

    /// Generates the token at UNIX time `time` (seconds).
    pub fn token_at(&self, time: u64) -> (res: Result<String, Fail>)
        requires
            self.num_digits() <= 9,
            self.secret().len() <= 0x1000_0000_0000_0000,
        ensures
            res matches Ok(t) && t@ == self.spec_token_at(time),
    {
        let counter = u64_be_bytes(time / 30);
        let tag = hmac_sign(self.algorithm, self.secret.as_slice(), counter.as_slice());
        Ok(tag_token(tag.as_slice(), self.digits))
    }

    /// Generates the token for the current time of the system clock.
    pub fn token(&self) -> (res: Result<String, Fail>)
        requires
            self.num_digits() <= 9,
            self.secret().len() <= 0x1000_0000_0000_0000,
        ensures
            res matches Ok(t) ==> exists|time: u64| t@ == #[trigger] self.spec_token_at(time),
            res matches Err(e) ==> e == Fail::ClockBeforeEpoch,
    {
        match crate::logins::system_time_nanos() {
            Ok(nanos) => self.token_at((nanos / 1_000_000_000) as u64),
            Err(_) => Err(Fail::ClockBeforeEpoch),
        }
    }
}

/// Within one 30-second window the token stays the same.
pub proof fn lemma_token_window(g: Generator, t1: u64, t2: u64)
    requires
        t1 / 30 == t2 / 30,
    ensures
        g.spec_token_at(t1) == g.spec_token_at(t2),
{
}

} // verus!
