//! Reading a search result entry from its BER structure: the entry's DN
//! and its text attributes, or nothing when the entry is malformed.

use vstd::prelude::*;
use vstd::utf8::{decode_utf8, valid_utf8};
use crate::directory::{pairs_view, DirEntry};

verus! {

/// A BER element as the directory sent it: its tag number, with the bytes
/// of a primitive value or the elements a constructed value is made of.
pub enum BerTag {
    Primitive { id: u64, bytes: Vec<u8> },
    Constructed { id: u64, children: Vec<BerTag> },
}

/// The tag number of an element.
pub open spec fn tag_id(t: BerTag) -> u64 {
    match t {
        BerTag::Primitive { id, .. } => id,
        BerTag::Constructed { id, .. } => id,
    }
}

/// The bytes of a primitive element; empty for a constructed one.
pub open spec fn bytes_of(t: BerTag) -> Seq<u8> {
    match t {
        BerTag::Primitive { bytes, .. } => bytes@,
        BerTag::Constructed { .. } => Seq::empty(),
    }
}

/// The elements of a constructed element; empty for a primitive one.
pub open spec fn parts_of(t: BerTag) -> Seq<BerTag> {
    match t {
        BerTag::Primitive { .. } => Seq::empty(),
        BerTag::Constructed { children, .. } => children@,
    }
}

/// Whether `t` is a primitive element holding UTF-8 text.
pub open spec fn is_text(t: BerTag) -> bool {
    t is Primitive && valid_utf8(bytes_of(t))
}

/// The text of a primitive element.
pub open spec fn text(t: BerTag) -> Seq<char> {
    decode_utf8(bytes_of(t))
}

/// The tag number of a search result entry.
pub const SEARCH_RESULT_ENTRY: u64 = 4;

/// Whether an attribute is well formed: its type as text, then a
/// constructed set of primitive values.
pub open spec fn attr_well_formed(a: BerTag) -> bool {
    &&& a is Constructed
    &&& parts_of(a).len() >= 2
    &&& is_text(parts_of(a)[0])
    &&& parts_of(a)[1] is Constructed
    &&& forall|i: int|
        0 <= i < parts_of(parts_of(a)[1]).len() ==> (#[trigger] parts_of(parts_of(a)[1])[i]) is Primitive
}

/// Whether every value of an attribute is UTF-8 text; an attribute with a
/// binary value is no text attribute.
pub open spec fn attr_is_text(a: BerTag) -> bool {
    forall|i: int|
        0 <= i < parts_of(parts_of(a)[1]).len() ==> valid_utf8(
            bytes_of(#[trigger] parts_of(parts_of(a)[1])[i]),
        )
}

/// The values of an attribute as text.
pub open spec fn attr_values(a: BerTag) -> Seq<Seq<char>> {
    parts_of(parts_of(a)[1]).map_values(|v: BerTag| text(v))
}

/// Whether an entry is well formed: a constructed search result entry whose
/// first element is its DN as text and whose second is the list of its
/// well-formed attributes.
pub open spec fn entry_well_formed(t: BerTag) -> bool {
    &&& t is Constructed
    &&& tag_id(t) == SEARCH_RESULT_ENTRY
    &&& parts_of(t).len() >= 2
    &&& is_text(parts_of(t)[0])
    &&& parts_of(t)[1] is Constructed
    &&& forall|i: int|
        0 <= i < parts_of(parts_of(t)[1]).len() ==> attr_well_formed(
            #[trigger] parts_of(parts_of(t)[1])[i],
        )
}

/// The text attributes among `attrs`, in order, each with its values.
pub open spec fn text_attrs(attrs: Seq<BerTag>) -> Seq<(Seq<char>, Seq<Seq<char>>)>
    decreases attrs.len(),
{
    if attrs.len() == 0 {
        Seq::empty()
    } else {
        let prev = text_attrs(attrs.drop_last());
        let a = attrs.last();
        if attr_is_text(a) {
            prev.push((text(parts_of(a)[0]), attr_values(a)))
        } else {
            prev
        }
    }
}

/// Relies on String::from_utf8: it accepts exactly the valid UTF-8 byte
/// strings, and the string it gives holds the characters they encode.
#[verifier::external_body]
fn utf8_text(bytes: Vec<u8>) -> (r: Option<String>)
    ensures
        match r {
            Some(s) => valid_utf8(bytes@) && s@ == decode_utf8(bytes@),
            None => !valid_utf8(bytes@),
        },
{
    String::from_utf8(bytes).ok()
}

/// The text of a primitive element, if it is one and holds UTF-8.
fn text_value(t: &BerTag) -> (r: Option<String>)
    ensures
        is_text(*t) <==> r is Some,
        r matches Some(s) ==> s@ == text(*t),
{
    match t {
        BerTag::Primitive { bytes, .. } => utf8_text(bytes.clone()),
        BerTag::Constructed { .. } => None,
    }
}

/// Reads one attribute: nothing when it is malformed; else its type and
/// values when they are all text, or no pair for a binary attribute.
fn attr_from_tag(a: &BerTag) -> (r: Option<Option<(String, Vec<String>)>>)
    ensures
        attr_well_formed(*a) <==> r is Some,
        r matches Some(x) ==> (attr_is_text(*a) <==> x is Some),
        r matches Some(Some(p)) ==> p.0@ == text(parts_of(*a)[0]) && p.1.deep_view()
            == attr_values(*a),
{
    let parts = match a {
        BerTag::Primitive { .. } => return None,
        BerTag::Constructed { children, .. } => children,
    };
    if parts.len() < 2 {
        return None;
    }
    let name = match text_value(&parts[0]) {
        Some(s) => s,
        None => return None,
    };
    let values = match &parts[1] {
        BerTag::Primitive { .. } => return None,
        BerTag::Constructed { children, .. } => children,
    };
    let ghost vs = parts_of(parts_of(*a)[1]);
    assert(vs == values@);
    let mut texts: Vec<String> = Vec::new();
    let mut binary = false;
    let mut k: usize = 0;
    while k < values.len()
        invariant
            vs == values@,
            *a is Constructed,
            parts_of(*a).len() >= 2,
            vs == parts_of(parts_of(*a)[1]),
            k <= vs.len(),
            forall|j: int| 0 <= j < k ==> (#[trigger] vs[j]) is Primitive,
            binary <==> exists|j: int| 0 <= j < k && !valid_utf8(bytes_of(#[trigger] vs[j])),
            !binary ==> texts.deep_view() == vs.take(k as int).map_values(|v: BerTag| text(v)),
        decreases vs.len() - k,
    {
        match &values[k] {
            BerTag::Primitive { bytes, .. } => {
                match utf8_text(bytes.clone()) {
                    Some(s) => {
                        let ghost before = texts.deep_view();
                        texts.push(s);
                        assert(texts.deep_view() =~= before.push(s@));
                        assert(vs.take(k + 1).map_values(|v: BerTag| text(v)) =~= vs.take(
                            k as int,
                        ).map_values(|v: BerTag| text(v)).push(text(vs[k as int])));
                    },
                    None => {
                        binary = true;
                    },
                }
            },
            BerTag::Constructed { .. } => {
                assert(vs[k as int] is Constructed);
                assert(parts_of(parts_of(*a)[1])[k as int] == vs[k as int]);
                assert(!attr_well_formed(*a));
                return None;
            },
        }
        k = k + 1;
    }
    assert(vs.take(k as int) == vs);
    if binary {
        Some(None)
    } else {
        Some(Some((name, texts)))
    }
}

/// Reads a search result entry: its DN and its text attributes, or nothing
/// when the entry is malformed.
pub fn entry_from_tag(t: &BerTag) -> (r: Option<DirEntry>)
    ensures
        entry_well_formed(*t) <==> r is Some,
        r matches Some(e) ==> e@.dn == text(parts_of(*t)[0]) && e@.attrs == text_attrs(
            parts_of(parts_of(*t)[1]),
        ),
{
    let parts = match t {
        BerTag::Primitive { .. } => return None,
        BerTag::Constructed { id, children } => {
            if *id != SEARCH_RESULT_ENTRY {
                return None;
            }
            children
        },
    };
    if parts.len() < 2 {
        return None;
    }
    let dn = match text_value(&parts[0]) {
        Some(s) => s,
        None => return None,
    };
    let tags = match &parts[1] {
        BerTag::Primitive { .. } => return None,
        BerTag::Constructed { children, .. } => children,
    };
    let ghost ts = parts_of(parts_of(*t)[1]);
    assert(ts == tags@);
    let mut attrs: Vec<(String, Vec<String>)> = Vec::new();
    let mut i: usize = 0;
    while i < tags.len()
        invariant
            ts == tags@,
            *t is Constructed,
            parts_of(*t).len() >= 2,
            ts == parts_of(parts_of(*t)[1]),
            i <= ts.len(),
            forall|j: int| 0 <= j < i ==> attr_well_formed(#[trigger] ts[j]),
            pairs_view(attrs@) == text_attrs(ts.take(i as int)),
        decreases ts.len() - i,
    {
        assert(ts.take(i + 1).drop_last() == ts.take(i as int));
        assert(ts.take(i + 1).last() == ts[i as int]);
        match attr_from_tag(&tags[i]) {
            None => {
                assert(tags@[i as int] == ts[i as int]);
                assert(!attr_well_formed(ts[i as int]));
                assert(parts_of(parts_of(*t)[1])[i as int] == ts[i as int]);
                assert(!entry_well_formed(*t));
                return None;
            },
            Some(None) => {},
            Some(Some(p)) => {
                let ghost before = attrs@;
                let ghost pv = (p.0@, p.1.deep_view());
                attrs.push(p);
                assert(pairs_view(attrs@) =~= pairs_view(before).push(pv));
            },
        }
        i = i + 1;
    }
    assert(ts.take(i as int) == ts);
    Some(DirEntry { dn, attrs })
}

} // verus!
