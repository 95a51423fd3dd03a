//! The `key=value` line format of storage files.

use vstd::prelude::*;
use crate::map::{keys_ascending, map_of, StrMap};
use crate::text::{
    chars_of, find_char, index_of, lemma_index_of, lowercase, string_of, sub_chars, to_lowercase,
    trim, trim_chars,
};

verus! {

broadcast use vstd::string::group_string_axioms;

/// The entry that one line contributes: `key=value` (split at the first `=`)
/// sets the trimmed, lowercased key to the trimmed value; a line without `=`
/// changes nothing.
pub open spec fn apply_line(m: Map<Seq<char>, Seq<char>>, line: Seq<char>) -> Map<Seq<char>, Seq<char>> {
    match index_of(line, '=') {
        Some(p) => m.insert(lowercase(trim(line.take(p))), trim(line.skip(p + 1))),
        None => m,
    }
}

/// Applies the lines of `s` (separated by `\n`) to `m`, first to last.
pub open spec fn parse_lines(m: Map<Seq<char>, Seq<char>>, s: Seq<char>) -> Map<Seq<char>, Seq<char>>
    decreases s.len(),
{
    match index_of(s, '\n') {
        Some(i) => {
            proof {
                lemma_index_of(s, '\n');
            }
            parse_lines(apply_line(m, s.take(i)), s.skip(i + 1))
        },
        None => apply_line(m, s),
    }
}

/// The map that a storage file holds.
pub open spec fn spec_parse(buf: Seq<char>) -> Map<Seq<char>, Seq<char>> {
    parse_lines(Map::empty(), buf)
}

/// The line `key=value` with its line break.
pub open spec fn entry_line(k: Seq<char>, v: Seq<char>) -> Seq<char> {
    k + seq!['='] + v + seq!['\n']
}

/// The lines of the pairs, in order.
pub open spec fn serialize_pairs(p: Seq<(Seq<char>, Seq<char>)>) -> Seq<char>
    decreases p.len(),
{
    if p.len() == 0 {
        Seq::empty()
    } else {
        serialize_pairs(p.drop_last()) + entry_line(p.last().0, p.last().1)
    }
}

/// Applies one line to `map`.
fn parse_line(map: &mut StrMap<String>, line: &[char])
    ensures
        final(map)@ == apply_line(old(map)@, line@),
{
    assert(line@.skip(0) =~= line@);
    match find_char(line, '=', 0) {
        Some(p) => {
            proof {
                lemma_index_of(line@, '=');
                assert(index_of(line@, '=') == Some(p as int));
                assert(p < line@.len());
            }
            let key_chars = trim_chars(sub_chars(line, 0, p).as_slice());
            let key_text = string_of(key_chars.as_slice());
            let key = to_lowercase(key_text.as_str());
            let n = line.len();
            let value = string_of(trim_chars(sub_chars(line, p + 1, n).as_slice()).as_slice());
            assert(line@.subrange(0, p as int) =~= line@.take(p as int));
            assert(line@.subrange(p + 1, line@.len() as int) =~= line@.skip(p + 1));
            map.insert(key, value);
        },
        None => {},
    }
}

/// Parses a storage file: every line `key=value` sets the trimmed, lowercased
/// key to the trimmed value, later lines winning; other lines are ignored.
pub fn parse(buf: &str) -> (res: StrMap<String>)
    ensures
        res@ == spec_parse(buf@),
{
    let cs = chars_of(buf);
    let mut map: StrMap<String> = StrMap::new();
    let mut start: usize = 0;
    assert(cs@.skip(0) =~= cs@);
    loop
        invariant
            start <= cs@.len(),
            cs@ == buf@,
            parse_lines(map@, cs@.skip(start as int)) == spec_parse(buf@),
        decreases cs@.len() - start,
    {
        let ghost rest = cs@.skip(start as int);
        match find_char(cs.as_slice(), '\n', start) {
            Some(j) => {
                proof {
                    lemma_index_of(rest, '\n');
                }
                let line = sub_chars(cs.as_slice(), start, j);
                assert(line@ =~= rest.take(j - start));
                parse_line(&mut map, line.as_slice());
                assert(rest.skip(j - start + 1) =~= cs@.skip(j + 1));
                start = j + 1;
            },
            None => {
                let line = sub_chars(cs.as_slice(), start, cs.len());
                assert(line@ =~= rest);
                parse_line(&mut map, line.as_slice());
                return map;
            },
        }
    }
}

/// Serializes a map into lines `key=value`, in ascending key order.
pub fn serialize(data: &StrMap<String>) -> (res: String)
    ensures
        res@ == serialize_pairs(data.pairs()),
        keys_ascending(data.pairs()),
{
    let mut res = String::new();
    assert(data.pairs().take(0) =~= Seq::<(Seq<char>, Seq<char>)>::empty());
    let n = data.len();
    for i in 0..n
        invariant
            res@ == serialize_pairs(data.pairs().take(i as int)),
            n == data.pairs().len(),
    {
        let (k, v) = data.entry_at(i);
        res.append(k.as_str());
        res.append("=");
        res.append(v.as_str());
        res.append("\n");
        proof {
            reveal_strlit("=");
            reveal_strlit("\n");
            assert(data.pairs().take(i + 1).drop_last() =~= data.pairs().take(i as int));
            assert(res@ =~= serialize_pairs(data.pairs().take(i + 1)));
        }
    }
    assert(data.pairs().take(data.pairs().len() as int) =~= data.pairs());
    res
}

/// A key that survives a round trip through a storage file: no `=` and no
/// line break, no surrounding white space, and unchanged by lowercasing.
pub open spec fn storable_key(k: Seq<char>) -> bool {
    &&& forall|i: int| 0 <= i < k.len() ==> #[trigger] k[i] != '=' && k[i] != '\n'
    &&& trim(k) == k
    &&& lowercase(k) == k
}

/// Every key and value of `p` survives a round trip through a storage file.
pub open spec fn storable_pairs(p: Seq<(Seq<char>, Seq<char>)>) -> bool {
    forall|i: int| 0 <= i < p.len() ==> storable_key(#[trigger] p[i].0) && storable_value(p[i].1)
}

/// A character of the keys and values that this library writes itself: a
/// decimal digit, a lowercase Latin letter or `_`.
pub open spec fn plain_char(c: char) -> bool {
    ('0' <= c && c <= '9') || ('a' <= c && c <= 'z') || c == '_'
}

/// A text of plain characters is ASCII, its own trimmed and ASCII-lowercased
/// form, and holds no `=` and no line break.
pub proof fn lemma_plain_text(k: Seq<char>)
    requires
        forall|i: int| 0 <= i < k.len() ==> plain_char(#[trigger] k[i]),
    ensures
        vstd::utf8::is_ascii_chars(k),
        crate::text::ascii_lowercase(k) == k,
        trim(k) == k,
        forall|i: int| 0 <= i < k.len() ==> #[trigger] k[i] != '=' && k[i] != '\n',
        storable_value(k),
{
    assert(crate::text::ascii_lowercase(k) =~= k);
    if k.len() > 0 {
        assert(plain_char(k[0]) && plain_char(k.last()));
        assert(!crate::text::is_space(k[0]));
        assert(!crate::text::is_space(k.last()));
    }
    assert(crate::text::trim_start(k) == k);
    assert(crate::text::trim_end(k) == k);
}

/// A value that survives a round trip through a storage file: no line break
/// and no surrounding white space.
pub open spec fn storable_value(v: Seq<char>) -> bool {
    &&& forall|i: int| 0 <= i < v.len() ==> #[trigger] v[i] != '\n'
    &&& trim(v) == v
}

/// Inserts the pairs into `m`, first to last.
pub open spec fn insert_all(m: Map<Seq<char>, Seq<char>>, p: Seq<(Seq<char>, Seq<char>)>) -> Map<Seq<char>, Seq<char>>
    decreases p.len(),
{
    if p.len() == 0 {
        m
    } else {
        insert_all(m.insert(p[0].0, p[0].1), p.drop_first())
    }
}

proof fn lemma_insert_all_push(m: Map<Seq<char>, Seq<char>>, p: Seq<(Seq<char>, Seq<char>)>, x: (Seq<char>, Seq<char>))
    ensures
        insert_all(m, p.push(x)) == insert_all(m, p).insert(x.0, x.1),
    decreases p.len(),
{
    if p.len() > 0 {
        assert(p.push(x).drop_first() =~= p.drop_first().push(x));
        assert(p.push(x)[0] == p[0]);
        lemma_insert_all_push(m.insert(p[0].0, p[0].1), p.drop_first(), x);
    } else {
        assert(p.push(x).drop_first() =~= Seq::<(Seq<char>, Seq<char>)>::empty());
        assert(p.push(x)[0] == x);
        assert(insert_all(m.insert(x.0, x.1), Seq::<(Seq<char>, Seq<char>)>::empty()) == m.insert(x.0, x.1));
        assert(p =~= Seq::<(Seq<char>, Seq<char>)>::empty());
    }
}

proof fn lemma_insert_all_map_of(p: Seq<(Seq<char>, Seq<char>)>)
    ensures
        insert_all(Map::empty(), p) == map_of(p),
    decreases p.len(),
{
    if p.len() > 0 {
        lemma_insert_all_map_of(p.drop_last());
        lemma_insert_all_push(Map::empty(), p.drop_last(), p.last());
        assert(p.drop_last().push(p.last()) =~= p);
    }
}

proof fn lemma_serialize_front(p: Seq<(Seq<char>, Seq<char>)>)
    requires
        p.len() > 0,
    ensures
        serialize_pairs(p) == entry_line(p[0].0, p[0].1) + serialize_pairs(p.drop_first()),
    decreases p.len(),
{
    if p.len() > 1 {
        lemma_serialize_front(p.drop_last());
        assert(p.drop_last().drop_first() =~= p.drop_first().drop_last());
        assert(serialize_pairs(p) =~= entry_line(p[0].0, p[0].1) + serialize_pairs(p.drop_first()));
    } else {
        assert(p.drop_first() =~= Seq::<(Seq<char>, Seq<char>)>::empty());
        assert(p.drop_last() =~= Seq::<(Seq<char>, Seq<char>)>::empty());
        assert(serialize_pairs(p.drop_last()) == Seq::<char>::empty());
        assert(serialize_pairs(p.drop_first()) == Seq::<char>::empty());
        assert(p.last() == p[0]);
        assert(serialize_pairs(p) =~= entry_line(p[0].0, p[0].1));
    }
}

/// Searching `a + b` for a character that `a` lacks finds it in `b`.
proof fn lemma_index_of_concat(a: Seq<char>, b: Seq<char>, c: char)
    requires
        forall|i: int| 0 <= i < a.len() ==> #[trigger] a[i] != c,
    ensures
        index_of(a + b, c) == match index_of(b, c) {
            Some(i) => Some(i + a.len()),
            None => None::<int>,
        },
    decreases a.len(),
{
    if a.len() > 0 {
        assert((a + b).drop_first() =~= a.drop_first() + b);
        lemma_index_of_concat(a.drop_first(), b, c);
    } else {
        assert(a + b =~= b);
    }
}

proof fn lemma_parse_entry_line(m: Map<Seq<char>, Seq<char>>, k: Seq<char>, v: Seq<char>, rest: Seq<char>)
    requires
        storable_key(k),
        storable_value(v),
    ensures
        parse_lines(m, entry_line(k, v) + rest) == parse_lines(m.insert(k, v), rest),
{
    let line = k + seq!['='] + v;
    let s = entry_line(k, v) + rest;
    assert(s =~= line + (seq!['\n'] + rest));
    assert forall|i: int| 0 <= i < line.len() implies #[trigger] line[i] != '\n' by {
        if i < k.len() {
            assert(line[i] == k[i]);
        } else if i > k.len() {
            assert(line[i] == v[i - k.len() - 1]);
        }
    }
    lemma_index_of_concat(line, seq!['\n'] + rest, '\n');
    assert(index_of(seq!['\n'] + rest, '\n') == Some(0int));
    assert(s.take(line.len() as int) =~= line);
    assert(s.skip(line.len() as int + 1) =~= rest);
    lemma_index_of_concat(k, seq!['='] + v, '=');
    assert(line =~= k + (seq!['='] + v));
    assert(index_of(seq!['='] + v, '=') == Some(0int));
    assert(line.take(k.len() as int) =~= k);
    assert(line.skip(k.len() as int + 1) =~= v);
}

proof fn lemma_parse_serialized(m: Map<Seq<char>, Seq<char>>, p: Seq<(Seq<char>, Seq<char>)>)
    requires
        forall|i: int| 0 <= i < p.len() ==> storable_key(#[trigger] p[i].0) && storable_value(p[i].1),
    ensures
        parse_lines(m, serialize_pairs(p)) == insert_all(m, p),
    decreases p.len(),
{
    if p.len() == 0 {
        assert(index_of(Seq::<char>::empty(), '\n') is None);
    } else {
        lemma_serialize_front(p);
        assert(storable_key(p[0].0) && storable_value(p[0].1));
        lemma_parse_entry_line(m, p[0].0, p[0].1, serialize_pairs(p.drop_first()));
        assert forall|i: int| 0 <= i < p.drop_first().len() implies storable_key(
            #[trigger] p.drop_first()[i].0,
        ) && storable_value(p.drop_first()[i].1) by {
            assert(p.drop_first()[i] == p[i + 1]);
        }
        lemma_parse_serialized(m.insert(p[0].0, p[0].1), p.drop_first());
    }
}

/// Serializing pairs whose keys and values are storable and parsing the
/// result gives back the map of the pairs.
pub proof fn lemma_parse_serialize(p: Seq<(Seq<char>, Seq<char>)>)
    requires
        forall|i: int| 0 <= i < p.len() ==> storable_key(#[trigger] p[i].0) && storable_value(p[i].1),
    ensures
        spec_parse(serialize_pairs(p)) == map_of(p),
{
    lemma_parse_serialized(Map::empty(), p);
    lemma_insert_all_map_of(p);
}

/// Whether `cs` lacks the character `c`.
fn lacks_char(cs: &[char], c: char) -> (res: bool)
    ensures
        res == forall|i: int| 0 <= i < cs@.len() ==> #[trigger] cs@[i] != c,
{
    assert(cs@.skip(0) =~= cs@);
    let found = find_char(cs, c, 0);
    proof {
        lemma_index_of(cs@, c);
    }
    found.is_none()
}

/// Whether the characters of `a` and `b` agree.
fn same_chars(a: &[char], b: &[char]) -> (res: bool)
    ensures
        res == (a@ == b@),
{
    crate::map::text_eq(a, b)
}

/// Whether every key and value of `data` is storable, so that the storage
/// file that `serialize` writes parses back into the same map.
pub fn storable(data: &StrMap<String>) -> (res: bool)
    ensures
        res == forall|i: int|
            0 <= i < data.pairs().len() ==> storable_key(#[trigger] data.pairs()[i].0)
                && storable_value(data.pairs()[i].1),
        res ==> spec_parse(serialize_pairs(data.pairs())) == data@,
{
    let ghost p = data.pairs();
    let n = data.len();
    let mut i: usize = 0;
    while i < n
        invariant
            p == data.pairs(),
            n == p.len(),
            i <= n,
            forall|j: int| 0 <= j < i ==> storable_key(#[trigger] p[j].0) && storable_value(p[j].1),
        decreases n - i,
    {
        let (k, v) = data.entry_at(i);
        let kc = chars_of(k.as_str());
        let vc = chars_of(v.as_str());
        let lower = to_lowercase(k.as_str());
        let lc = chars_of(lower.as_str());
        let key_ok = lacks_char(kc.as_slice(), '=') && lacks_char(kc.as_slice(), '\n') && same_chars(
            trim_chars(kc.as_slice()).as_slice(),
            kc.as_slice(),
        ) && same_chars(lc.as_slice(), kc.as_slice());
        let value_ok = lacks_char(vc.as_slice(), '\n') && same_chars(
            trim_chars(vc.as_slice()).as_slice(),
            vc.as_slice(),
        );
        assert(kc@ == p[i as int].0 && vc@ == p[i as int].1);
        if !(key_ok && value_ok) {
            assert(!(storable_key(p[i as int].0) && storable_value(p[i as int].1)));
            return false;
        }
        assert forall|j: int| 0 <= j < i + 1 implies storable_key(#[trigger] p[j].0) && storable_value(p[j].1) by {
            if j == i {
                assert(storable_key(p[i as int].0) && storable_value(p[i as int].1));
            }
        }
        i = i + 1;
    }
    proof {
        lemma_parse_serialize(p);
    }
    true
}

/// A store of secrets; implemented by the backends that keep them.
pub trait Storage<'a> {}

/// A store of secrets kept encrypted in the file at `file`.
pub struct SecureStorage<'a> {
    file: &'a str,
}

} // verus!
