//! Parsers for option values given on the command line.

use vstd::prelude::*;
use vstd::string::StrSliceExecFns;
use vstd::string::StringExecFns;
use crate::keymap::KeyMap;

verus! {

/// The message given for a base path that is not absolute.
pub open spec fn path_error() -> Seq<char> {
    "path must start with `/`"@
}

/// Accepts a base path only when it starts with `/`.
pub fn path(value: &str) -> (r: Result<String, String>)
    ensures
        match r {
            Ok(p) => value@.len() > 0 && value@[0] == '/' && p@ == value@,
            Err(e) => !(value@.len() > 0 && value@[0] == '/') && e@ == path_error(),
        },
{
    if value.unicode_len() > 0 && value.get_char(0) == '/' {
        Ok(String::from_str(value))
    } else {
        proof { reveal_strlit("path must start with `/`"); }
        Err(String::from_str("path must start with `/`"))
    }
}

/// The message given for a file name that names nothing.
pub open spec fn missing_file_error(value: Seq<char>) -> Seq<char> {
    "no such file or directory: '"@ + value + "'"@
}

/// The message given for a file name that names something else than a file.
pub open spec fn not_a_file_error(value: Seq<char>) -> Seq<char> {
    "not a file: "@ + value
}

/// Accepts a file name, given whether it names something and whether that
/// is a regular file.
pub fn file(value: &str, exists: bool, is_file: bool) -> (r: Result<String, String>)
    ensures
        !exists ==> (r matches Err(e) && e@ == missing_file_error(value@)),
        exists && !is_file ==> (r matches Err(e) && e@ == not_a_file_error(value@)),
        exists && is_file ==> (r matches Ok(f) && f@ == value@),
{
    if !exists {
        let mut e = String::from_str("no such file or directory: '");
        e.append(value);
        e.append("'");
        return Err(e);
    }
    if !is_file {
        let mut e = String::from_str("not a file: ");
        e.append(value);
        return Err(e);
    }
    Ok(String::from_str(value))
}

/// The text before and after the first `:` of `s`, if it has one.
pub open spec fn split_at_colon(s: Seq<char>) -> Option<(Seq<char>, Seq<char>)>
    decreases s.len(),
{
    if s.len() == 0 {
        None
    } else if s[0] == ':' {
        Some((Seq::empty(), s.drop_first()))
    } else {
        match split_at_colon(s.drop_first()) {
            Some((k, v)) => Some((seq![s[0]] + k, v)),
            None => None,
        }
    }
}

/// The message given for a pair without a `:`.
pub open spec fn pair_error(s: Seq<char>) -> Seq<char> {
    "invalid key:val format in: "@ + s
}

proof fn lemma_split_at_first_colon(s: Seq<char>, p: int)
    requires
        0 <= p < s.len(),
        s[p] == ':',
        forall|j: int| 0 <= j < p ==> s[j] != ':',
    ensures
        split_at_colon(s) == Some((s.take(p), s.skip(p + 1))),
    decreases p,
{
    if p > 0 {
        lemma_split_at_first_colon(s.drop_first(), p - 1);
        assert(seq![s[0]] + s.drop_first().take(p - 1) == s.take(p));
        assert(s.drop_first().skip(p) == s.skip(p + 1));
    } else {
        assert(s.take(0) == Seq::<char>::empty());
        assert(s.skip(1) == s.drop_first());
    }
}

proof fn lemma_no_colon(s: Seq<char>)
    requires
        forall|j: int| 0 <= j < s.len() ==> s[j] != ':',
    ensures
        split_at_colon(s) is None,
    decreases s.len(),
{
    if s.len() > 0 {
        assert(s[0] != ':');
        assert forall|j: int| 0 <= j < s.drop_first().len() implies s.drop_first()[j] != ':' by {
            assert(s.drop_first()[j] == s[j + 1]);
        }
        lemma_no_colon(s.drop_first());
    }
}

/// Splits `key:value` at its first `:`.
pub fn key_value(value: &str) -> (r: Result<(String, String), String>)
    ensures
        match split_at_colon(value@) {
            Some((k, v)) => r matches Ok(p) && p.0@ == k && p.1@ == v,
            None => r matches Err(e) && e@ == pair_error(value@),
        },
{
    let n = value.unicode_len();
    let mut i: usize = 0;
    while i < n
        invariant
            n == value@.len(),
            i <= n,
            forall|j: int| 0 <= j < i ==> value@[j] != ':',
        decreases n - i,
    {
        if value.get_char(i) == ':' {
            proof { lemma_split_at_first_colon(value@, i as int); }
            let key = String::from_str(value.substring_char(0, i));
            let val = String::from_str(value.substring_char(i + 1, n));
            assert(value@.subrange(0, i as int) == value@.take(i as int));
            assert(value@.subrange(i + 1, n as int) == value@.skip(i + 1));
            return Ok((key, val));
        }
        i = i + 1;
    }
    proof { lemma_no_colon(value@); }
    let mut e = String::from_str("invalid key:val format in: ");
    e.append(value);
    Err(e)
}

/// The pieces of `s` between commas, as `str::split` gives them.
pub open spec fn split_commas(s: Seq<char>) -> Seq<Seq<char>>
    decreases s.len(),
{
    if s.len() == 0 {
        seq![Seq::empty()]
    } else {
        let init = split_commas(s.drop_last());
        if s.last() == ',' {
            init.push(Seq::empty())
        } else {
            init.update(init.len() - 1, init.last().push(s.last()))
        }
    }
}

/// The map that a list of pairs builds, empty pieces skipped and a later key
/// replacing an earlier one; or the message for the first piece that is no
/// pair.
pub open spec fn parse_pairs(items: Seq<Seq<char>>) -> Result<
    Map<Seq<char>, Seq<char>>,
    Seq<char>,
>
    decreases items.len(),
{
    if items.len() == 0 {
        Ok(Map::empty())
    } else {
        match parse_pairs(items.drop_last()) {
            Err(e) => Err(e),
            Ok(m) => {
                let it = items.last();
                if it.len() == 0 {
                    Ok(m)
                } else {
                    match split_at_colon(it) {
                        Some((k, v)) => Ok(m.insert(k, v)),
                        None => Err(pair_error(it)),
                    }
                }
            },
        }
    }
}

/// Whether `map` and `err` hold what parsing `items` gives.
pub open spec fn tracks(
    items: Seq<Seq<char>>,
    map: Map<Seq<char>, Seq<char>>,
    err: Option<String>,
) -> bool {
    match parse_pairs(items) {
        Ok(m) => err is None && map == m,
        Err(e) => err matches Some(x) && x@ == e,
    }
}

fn take_piece(
    map: &mut KeyMap<String>,
    err: &mut Option<String>,
    piece: &str,
    Ghost(done): Ghost<Seq<Seq<char>>>,
)
    requires
        tracks(done, old(map)@, *old(err)),
    ensures
        tracks(done.push(piece@), final(map)@, *final(err)),
{
    assert(done.push(piece@).drop_last() == done);
    if err.is_none() && piece.unicode_len() > 0 {
        match key_value(piece) {
            Ok((k, v)) => map.insert(k, v),
            Err(e) => *err = Some(e),
        }
    }
}

/// Parses a comma-separated list of `key:value` pairs into a map; empty
/// pieces are skipped and a later key replaces an earlier one.
pub fn comma_separated_key_value(value: &str) -> (r: Result<KeyMap<String>, String>)
    ensures
        match parse_pairs(split_commas(value@)) {
            Ok(m) => r matches Ok(map) && map@ == m,
            Err(e) => r matches Err(x) && x@ == e,
        },
{
    let n = value.unicode_len();
    let mut map: KeyMap<String> = KeyMap::new();
    let mut err: Option<String> = None;
    let ghost mut done: Seq<Seq<char>> = Seq::empty();
    let mut start: usize = 0;
    let mut i: usize = 0;
    assert(value@.take(0).len() == 0);
    assert(value@.subrange(0, 0) == Seq::<char>::empty());
    while i < n
        invariant
            n == value@.len(),
            start <= i <= n,
            split_commas(value@.take(i as int)) == done.push(value@.subrange(start as int, i as int)),
            tracks(done, map@, err),
        decreases n - i,
    {
        let c = value.get_char(i);
        assert(value@.take(i + 1).drop_last() == value@.take(i as int));
        assert(value@.take(i + 1).last() == c);
        if c == ',' {
            let piece = value.substring_char(start, i);
            take_piece(&mut map, &mut err, piece, Ghost(done));
            proof {
                done = done.push(piece@);
                assert(value@.subrange(i + 1, i + 1) == Seq::<char>::empty());
            }
            start = i + 1;
        } else {
            let ghost prev = done.push(value@.subrange(start as int, i as int));
            assert(value@.subrange(start as int, i as int).push(c) == value@.subrange(
                start as int,
                i + 1,
            ));
            assert(prev.update(prev.len() - 1, prev.last().push(c)) == done.push(
                value@.subrange(start as int, i + 1),
            ));
        }
        i = i + 1;
    }
    assert(value@.take(n as int) == value@);
    let piece = value.substring_char(start, n);
    take_piece(&mut map, &mut err, piece, Ghost(done));
    match err {
        Some(e) => Err(e),
        None => Ok(map),
    }
}

} // verus!
