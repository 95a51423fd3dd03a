//! Character-level string helpers shared by the parsers and encoders.

use vstd::prelude::*;

verus! {

broadcast use vstd::string::group_string_axioms;

/// The characters of `s`, in order.
pub fn chars_of(s: &str) -> (res: Vec<char>)
    ensures
        res@ == s@,
{
    let mut res: Vec<char> = Vec::new();
    for c in it: s.chars()
        invariant
            res@ == it.seq().take(it.index() as int),
    {
        res.push(c);
    }
    assert(res@ =~= s@);
    res
}

/// Appends `c` to `s` (`String::push`).
#[verifier::external_body]
pub(crate) fn string_push(s: &mut String, c: char)
    ensures
        final(s)@ == old(s)@.push(c),
{
    s.push(c);
}

/// A string holding exactly the characters of `cs`.
pub fn string_of(cs: &[char]) -> (res: String)
    ensures
        res@ == cs@,
{
    let mut res = String::new();
    for i in 0..cs.len()
        invariant
            res@ == cs@.take(i as int),
    {
        string_push(&mut res, cs[i]);
        assert(cs@.take(i + 1) =~= cs@.take(i as int).push(cs@[i as int]));
    }
    assert(cs@.take(cs@.len() as int) =~= cs@);
    res
}

/// A Latin letter or a decimal digit (`a-z`, `A-Z`, `0-9`).
pub open spec fn is_alnum_char(c: char) -> bool {
    ('a' <= c && c <= 'z') || ('A' <= c && c <= 'Z') || ('0' <= c && c <= '9')
}

/// Every character of `s` is a Latin letter or a decimal digit.
pub open spec fn all_alnum(s: Seq<char>) -> bool {
    forall|i: int| 0 <= i < s.len() ==> is_alnum_char(#[trigger] s[i])
}

/// The text of `bytes` decoded as UTF-8, where they are valid UTF-8.
pub open spec fn utf8_text(bytes: Seq<u8>) -> Option<Seq<char>> {
    if vstd::utf8::valid_utf8(bytes) {
        Some(vstd::utf8::decode_utf8(bytes))
    } else {
        None
    }
}

/// `String::from_utf8`: the text of `bytes`, or, where they are not valid
/// UTF-8, the `valid_up_to` and `error_len` of the error, which are named.
#[verifier::external_body]
pub(crate) fn string_from_utf8(bytes: Vec<u8>) -> (res: Result<String, (usize, Option<usize>)>)
    ensures
        res is Ok <==> utf8_text(bytes@) is Some,
        res matches Ok(s) ==> utf8_text(bytes@) == Some(s@),
        res matches Err(e) ==> e == crate::error::utf8_error(bytes@),
{
    match String::from_utf8(bytes) {
        Ok(s) => Ok(s),
        Err(e) => Err((e.utf8_error().valid_up_to(), e.utf8_error().error_len())),
    }
}

/// `c` is white space as `char::is_whitespace` defines it (the Unicode
/// `White_Space` property).
pub open spec fn is_space(c: char) -> bool {
    ('\u{9}' <= c && c <= '\u{d}') || c == ' ' || c == '\u{85}' || c == '\u{a0}' || c == '\u{1680}'
        || ('\u{2000}' <= c && c <= '\u{200a}') || c == '\u{2028}' || c == '\u{2029}' || c
        == '\u{202f}' || c == '\u{205f}' || c == '\u{3000}'
}

/// Whether `c` is white space.
pub fn is_space_char(c: char) -> (res: bool)
    ensures
        res == is_space(c),
{
    ('\u{9}' <= c && c <= '\u{d}') || c == ' ' || c == '\u{85}' || c == '\u{a0}' || c == '\u{1680}'
        || ('\u{2000}' <= c && c <= '\u{200a}') || c == '\u{2028}' || c == '\u{2029}' || c
        == '\u{202f}' || c == '\u{205f}' || c == '\u{3000}'
}

/// `s` without leading white space.
pub open spec fn trim_start(s: Seq<char>) -> Seq<char>
    decreases s.len(),
{
    if s.len() > 0 && is_space(s[0]) {
        trim_start(s.drop_first())
    } else {
        s
    }
}

/// `s` without trailing white space.
pub open spec fn trim_end(s: Seq<char>) -> Seq<char>
    decreases s.len(),
{
    if s.len() > 0 && is_space(s.last()) {
        trim_end(s.drop_last())
    } else {
        s
    }
}

/// `s` without leading and trailing white space (`str::trim`).
pub open spec fn trim(s: Seq<char>) -> Seq<char> {
    trim_end(trim_start(s))
}

/// The position of the first `c` in `s`.
pub open spec fn index_of(s: Seq<char>, c: char) -> Option<int>
    decreases s.len(),
{
    if s.len() == 0 {
        None
    } else if s[0] == c {
        Some(0)
    } else {
        match index_of(s.drop_first(), c) {
            Some(i) => Some(i + 1),
            None => None,
        }
    }
}

/// A position found by `index_of` holds `c`, and no earlier one does.
pub proof fn lemma_index_of(s: Seq<char>, c: char)
    ensures
        index_of(s, c) matches Some(i) ==> 0 <= i < s.len() && s[i] == c && forall|j: int|
            0 <= j < i ==> s[j] != c,
        index_of(s, c) is None ==> forall|j: int| 0 <= j < s.len() ==> s[j] != c,
    decreases s.len(),
{
    if s.len() > 0 {
        lemma_index_of(s.drop_first(), c);
        if s[0] != c {
            assert forall|j: int| 1 <= j < s.len() implies s[j] == s.drop_first()[j - 1] by {}
        }
    }
}

/// The characters of `cs` from `from` up to `to`.
pub fn sub_chars(cs: &[char], from: usize, to: usize) -> (res: Vec<char>)
    requires
        from <= to <= cs@.len(),
    ensures
        res@ == cs@.subrange(from as int, to as int),
{
    let mut res: Vec<char> = Vec::new();
    for i in from..to
        invariant
            from <= to <= cs@.len(),
            res@ == cs@.subrange(from as int, i as int),
    {
        res.push(cs[i]);
        assert(res@ =~= cs@.subrange(from as int, i + 1));
    }
    res
}

/// The first position at or after `from` that holds `c`.
pub fn find_char(cs: &[char], c: char, from: usize) -> (res: Option<usize>)
    requires
        from <= cs@.len(),
    ensures
        res matches Some(i) ==> index_of(cs@.skip(from as int), c) == Some(i - from),
        res is None ==> index_of(cs@.skip(from as int), c) is None,
{
    let mut i = from;
    while i < cs.len()
        invariant
            from <= i <= cs@.len(),
            index_of(cs@.skip(from as int), c) == match index_of(cs@.skip(i as int), c) {
                Some(k) => Some(k + (i - from)),
                None => None,
            },
        decreases cs@.len() - i,
    {
        if cs[i] == c {
            return Some(i);
        }
        assert(cs@.skip(i as int).drop_first() =~= cs@.skip(i + 1));
        i = i + 1;
    }
    None
}

/// The bounds of `cs[from..to]` without its leading and trailing white space.
pub fn trim_bounds(cs: &[char], from: usize, to: usize) -> (res: (usize, usize))
    requires
        from <= to <= cs@.len(),
    ensures
        from <= res.0 <= res.1 <= to,
        cs@.subrange(res.0 as int, res.1 as int) == trim(cs@.subrange(from as int, to as int)),
{
    let ghost s = cs@.subrange(from as int, to as int);
    let mut start: usize = from;
    assert(s.skip(0) =~= s);
    while start < to && is_space_char(cs[start])
        invariant
            from <= start <= to <= cs@.len(),
            s == cs@.subrange(from as int, to as int),
            trim_start(s) == trim_start(s.skip(start - from)),
        decreases to - start,
    {
        assert(s.skip(start - from).drop_first() =~= s.skip(start + 1 - from));
        start = start + 1;
    }
    assert(s.skip(start - from) =~= cs@.subrange(start as int, to as int));
    if start < to {
        assert(s.skip(start - from)[0] == cs@[start as int]);
    }
    assert(trim_start(s) == cs@.subrange(start as int, to as int));
    let mut end: usize = to;
    let ghost t = cs@.subrange(start as int, to as int);
    assert(t.take(t.len() as int) =~= t);
    while end > start && is_space_char(cs[end - 1])
        invariant
            from <= start <= end <= to <= cs@.len(),
            t == cs@.subrange(start as int, to as int),
            trim_end(t) == trim_end(t.take(end - start)),
        decreases end,
    {
        assert(t.take(end - start).drop_last() =~= t.take(end - 1 - start));
        end = end - 1;
    }
    assert(t.take(end - start) =~= cs@.subrange(start as int, end as int));
    if end > start {
        assert(t.take(end - start).last() == cs@[end - 1]);
    }
    (start, end)
}

/// `cs` without leading and trailing white space.
pub fn trim_chars(cs: &[char]) -> (res: Vec<char>)
    ensures
        res@ == trim(cs@),
{
    let (start, end) = trim_bounds(cs, 0, cs.len());
    assert(cs@.subrange(0, cs@.len() as int) =~= cs@);
    sub_chars(cs, start, end)
}

/// Whether `cs` ends with `suffix`.
pub fn ends_with(cs: &[char], suffix: &[char]) -> (res: bool)
    ensures
        res == suffix@.is_suffix_of(cs@),
{
    if suffix.len() > cs.len() {
        return false;
    }
    let n = cs.len();
    let offset = n - suffix.len();
    for i in 0..suffix.len()
        invariant
            n == cs@.len(),
            offset == cs@.len() - suffix@.len(),
            forall|j: int| 0 <= j < i ==> #[trigger] suffix@[j] == cs@[offset + j],
    {
        if suffix[i] != cs[offset + i] {
            assert(suffix@ != cs@.subrange(offset as int, cs@.len() as int)) by {
                assert(cs@.subrange(offset as int, cs@.len() as int)[i as int] == cs@[offset + i]);
            }
            return false;
        }
    }
    assert(suffix@ =~= cs@.subrange(offset as int, cs@.len() as int));
    true
}

/// What `str::to_lowercase` gives for `s`.
pub uninterp spec fn lowercase(s: Seq<char>) -> Seq<char>;

/// `s` with the ASCII capitals `A`-`Z` replaced by `a`-`z`.
pub open spec fn ascii_lowercase(s: Seq<char>) -> Seq<char> {
    s.map_values(|c: char| if 'A' <= c && c <= 'Z' { ((c as u32) + 32) as char } else { c })
}

/// `str::to_lowercase`: the lowercase mapping of `s`, named and not stated,
/// except that for ASCII text it lowers exactly the capitals `A`-`Z`.
#[verifier::external_body]
pub(crate) fn to_lowercase(s: &str) -> (res: String)
    ensures
        res@ == lowercase(s@),
        vstd::utf8::is_ascii_chars(s@) ==> res@ == ascii_lowercase(s@),
{
    s.to_lowercase()
}

} // verus!
