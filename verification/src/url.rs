//! Decoding of the percent escapes that the mobile client receives in URLs.

use vstd::prelude::*;

verus! {

/// `s` with every occurrence of `pat` replaced by `rep`, scanning from the
/// left and never matching inside a replacement (`str::replace`); an empty
/// pattern leaves `s` as it is.
pub open spec fn replace_all(s: Seq<char>, pat: Seq<char>, rep: Seq<char>) -> Seq<char>
    decreases s.len(),
{
    if s.len() == 0 || pat.len() == 0 {
        s
    } else if pat.len() <= s.len() && s.take(pat.len() as int) == pat {
        rep + replace_all(s.skip(pat.len() as int), pat, rep)
    } else {
        seq![s[0]] + replace_all(s.skip(1), pat, rep)
    }
}

/// The escape at position `i` of the decoding table: the two characters
/// after `%`, and the character they stand for.
pub open spec fn escape_entry(i: int) -> (char, char, char) {
    if i == 0 { ('2', '0', ' ') }
    else if i == 1 { ('2', '1', '!') }
    else if i == 2 { ('2', '2', '"') }
    else if i == 3 { ('2', '3', '#') }
    else if i == 4 { ('2', '4', '$') }
    else if i == 5 { ('2', '5', '%') }
    else if i == 6 { ('2', '6', '&') }
    else if i == 7 { ('2', '7', '\'') }
    else if i == 8 { ('2', '8', '(') }
    else if i == 9 { ('2', '9', ')') }
    else if i == 10 { ('2', 'A', '*') }
    else if i == 11 { ('2', 'B', '+') }
    else if i == 12 { ('2', 'C', ',') }
    else if i == 13 { ('2', 'D', '-') }
    else if i == 14 { ('2', 'E', '.') }
    else if i == 15 { ('2', 'F', '/') }
    else if i == 16 { ('3', 'A', ':') }
    else if i == 17 { ('3', 'B', ';') }
    else if i == 18 { ('3', 'C', '<') }
    else if i == 19 { ('3', 'D', '=') }
    else if i == 20 { ('3', 'E', '>') }
    else if i == 21 { ('3', 'F', '?') }
    else if i == 22 { ('4', '0', '@') }
    else if i == 23 { ('5', 'B', '[') }
    else if i == 24 { ('5', 'C', '\\') }
    else if i == 25 { ('5', 'D', ']') }
    else if i == 26 { ('7', 'B', '{') }
    else if i == 27 { ('7', 'C', '|') }
    else { ('7', 'D', '}') }
}

/// The number of escapes in the decoding table.
pub const ESCAPE_COUNT: usize = 29;

/// The pattern of the escape at position `i`: `%` and its two characters.
pub open spec fn escape_pattern(i: int) -> Seq<char> {
    seq!['%', escape_entry(i).0, escape_entry(i).1]
}

/// `s` after the first `n` replacements of the decoding table, applied one
/// after another in the table's order.
pub open spec fn apply_escapes(s: Seq<char>, n: nat) -> Seq<char>
    decreases n,
{
    if n == 0 {
        s
    } else {
        let prev = apply_escapes(s, (n - 1) as nat);
        replace_all(prev, escape_pattern(n - 1), seq![escape_entry(n - 1).2])
    }
}

/// The decoded form of `s`: every replacement of the table applied in turn,
/// from `%20` to `%7D`.
pub open spec fn spec_decode_url(s: Seq<char>) -> Seq<char> {
    apply_escapes(s, ESCAPE_COUNT as nat)
}

/// The escape at position `i` of the decoding table.
fn escape_at(i: usize) -> (res: (char, char, char))
    requires
        i < ESCAPE_COUNT,
    ensures
        res == escape_entry(i as int),
{
    match i {
        0 => ('2', '0', ' '),
        1 => ('2', '1', '!'),
        2 => ('2', '2', '"'),
        3 => ('2', '3', '#'),
        4 => ('2', '4', '$'),
        5 => ('2', '5', '%'),
        6 => ('2', '6', '&'),
        7 => ('2', '7', '\''),
        8 => ('2', '8', '('),
        9 => ('2', '9', ')'),
        10 => ('2', 'A', '*'),
        11 => ('2', 'B', '+'),
        12 => ('2', 'C', ','),
        13 => ('2', 'D', '-'),
        14 => ('2', 'E', '.'),
        15 => ('2', 'F', '/'),
        16 => ('3', 'A', ':'),
        17 => ('3', 'B', ';'),
        18 => ('3', 'C', '<'),
        19 => ('3', 'D', '='),
        20 => ('3', 'E', '>'),
        21 => ('3', 'F', '?'),
        22 => ('4', '0', '@'),
        23 => ('5', 'B', '['),
        24 => ('5', 'C', '\\'),
        25 => ('5', 'D', ']'),
        26 => ('7', 'B', '{'),
        27 => ('7', 'C', '|'),
        _ => ('7', 'D', '}'),
    }
}

/// Replaces every `%`, `a`, `b` in `cs` by `r`, from the left.
pub fn replace_escape(cs: &Vec<char>, a: char, b: char, r: char) -> (res: Vec<char>)
    ensures
        res@ == replace_all(cs@, seq!['%', a, b], seq![r]),
{
    let ghost pat = seq!['%', a, b];
    let ghost rep = seq![r];
    let mut out: Vec<char> = Vec::new();
    let mut i: usize = 0;
    let n = cs.len();
    assert(cs@.skip(0) =~= cs@);
    assert(out@ + replace_all(cs@, pat, rep) =~= replace_all(cs@, pat, rep));
    while i < n
        invariant
            n == cs@.len(),
            i <= n,
            pat == seq!['%', a, b],
            rep == seq![r],
            out@ + replace_all(cs@.skip(i as int), pat, rep) == replace_all(cs@, pat, rep),
        decreases n - i,
    {
        let ghost rest = cs@.skip(i as int);
        if n - i > 2 && cs[i] == '%' && cs[i + 1] == a && cs[i + 2] == b {
            assert(rest.take(3) =~= pat);
            assert(rest.skip(3) =~= cs@.skip(i + 3));
            assert(replace_all(rest, pat, rep) == rep + replace_all(cs@.skip(i + 3), pat, rep));
            out.push(r);
            assert(out@ =~= out@.drop_last() + rep);
            assert(out@ + replace_all(cs@.skip(i + 3), pat, rep) =~= out@.drop_last() + (rep + replace_all(
                cs@.skip(i + 3),
                pat,
                rep,
            )));
            i = i + 3;
        } else {
            assert(!(rest.take(3) =~= pat) || rest.len() < 3) by {
                if rest.len() >= 3 && rest.take(3) =~= pat {
                    assert(rest.take(3)[0] == cs@[i as int]);
                    assert(rest.take(3)[1] == cs@[i + 1]);
                    assert(rest.take(3)[2] == cs@[i + 2]);
                }
            }
            assert(rest.skip(1) =~= cs@.skip(i + 1));
            assert(replace_all(rest, pat, rep) == seq![cs@[i as int]] + replace_all(cs@.skip(i + 1), pat, rep));
            let ghost before = out@;
            out.push(cs[i]);
            assert(out@ + replace_all(cs@.skip(i + 1), pat, rep) =~= before + (seq![cs@[i as int]] + replace_all(
                cs@.skip(i + 1),
                pat,
                rep,
            )));
            i = i + 1;
        }
    }
    assert(cs@.skip(i as int) =~= Seq::<char>::empty());
    assert(out@ + Seq::<char>::empty() =~= out@);
    out
}

/// Decodes the percent escapes of `encoded_url`, as the mobile client gets
/// it: `%20` to a space, then `%21` to `!`, and so on through the table, each
/// replacement over the result of the one before.
pub fn decode_url(encoded_url: &str) -> (res: String)
    ensures
        res@ == spec_decode_url(encoded_url@),
{
    let mut cs = crate::text::chars_of(encoded_url);
    let mut i: usize = 0;
    while i < ESCAPE_COUNT
        invariant
            i <= ESCAPE_COUNT,
            cs@ == apply_escapes(encoded_url@, i as nat),
        decreases ESCAPE_COUNT - i,
    {
        let (a, b, r) = escape_at(i);
        cs = replace_escape(&cs, a, b, r);
        i = i + 1;
    }
    crate::text::string_of(cs.as_slice())
}

/// Replacing a pattern whose first character does not occur in `s` leaves
/// `s` as it is.
proof fn lemma_replace_absent(s: Seq<char>, pat: Seq<char>, rep: Seq<char>)
    requires
        pat.len() > 0,
        forall|i: int| 0 <= i < s.len() ==> #[trigger] s[i] != pat[0],
    ensures
        replace_all(s, pat, rep) == s,
    decreases s.len(),
{
    if s.len() > 0 {
        if pat.len() <= s.len() && s.take(pat.len() as int) == pat {
            assert(s[0] == s.take(pat.len() as int)[0]);
        }
        lemma_replace_absent(s.skip(1), pat, rep);
        assert(seq![s[0]] + s.skip(1) =~= s);
    }
}

/// The replacements of the table leave a text without `%` as it is.
proof fn lemma_apply_plain(s: Seq<char>, n: nat)
    requires
        forall|i: int| 0 <= i < s.len() ==> #[trigger] s[i] != '%',
    ensures
        apply_escapes(s, n) == s,
    decreases n,
{
    if n > 0 {
        lemma_apply_plain(s, (n - 1) as nat);
        lemma_replace_absent(s, escape_pattern(n - 1), seq![escape_entry(n - 1).2]);
    }
}

/// A URL without `%` decodes to itself.
pub proof fn lemma_decode_plain(s: Seq<char>)
    requires
        forall|i: int| 0 <= i < s.len() ==> #[trigger] s[i] != '%',
    ensures
        spec_decode_url(s) == s,
{
    lemma_apply_plain(s, ESCAPE_COUNT as nat);
}

} // verus!
