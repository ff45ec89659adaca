//! Apple property lists as the importer sees them. The XML is read by `plist`; what is held
//! of it here is what the importer asks for.

use crate::plist_scan::{has_wild_date, holds_wild_date, nesting, nesting_bound};
use plist::{Error as PlistFault, Value as PlistNode};
use vstd::prelude::*;

verus! {

#[verifier::external_type_specification]
#[verifier::external_body]
pub struct ExPlistNode(PlistNode);

#[verifier::external_type_specification]
#[verifier::external_body]
pub struct ExPlistFault(PlistFault);

/// A property list value. An integer is held when it fits 64 bits with a sign; booleans,
/// dates and the other kinds are not told apart.
pub enum Plist {
    Array(Vec<Plist>),
    Dictionary(Vec<(String, Plist)>),
    Data(Vec<u8>),
    Integer(Option<i64>),
    Text(String),
    Other,
}

/// The content of a [`Plist`].
pub enum PlistView {
    Array(Seq<PlistView>),
    Dictionary(Seq<(Seq<char>, PlistView)>),
    Data(Seq<u8>),
    Integer(Option<i64>),
    Text(Seq<char>),
    Other,
}

/// The content of a property list value.
pub open spec fn plist_of(p: Plist) -> PlistView
    decreases p,
{
    match p {
        Plist::Array(v) => PlistView::Array(
            Seq::new(
                v@.len(),
                |i: int|
                    if 0 <= i < v@.len() {
                        plist_of(v@[i])
                    } else {
                        PlistView::Other
                    },
            ),
        ),
        Plist::Dictionary(v) => PlistView::Dictionary(
            Seq::new(
                v@.len(),
                |i: int|
                    if 0 <= i < v@.len() {
                        (v@[i].0@, plist_of(v@[i].1))
                    } else {
                        (Seq::empty(), PlistView::Other)
                    },
            ),
        ),
        Plist::Data(b) => PlistView::Data(b@),
        Plist::Integer(n) => PlistView::Integer(n),
        Plist::Text(s) => PlistView::Text(s@),
        Plist::Other => PlistView::Other,
    }
}

impl View for Plist {
    type V = PlistView;

    open spec fn view(&self) -> PlistView {
        plist_of(*self)
    }
}

/// What `plist::Value::from_reader_xml` makes of a byte sequence: the value, or the text of
/// the error.
pub uninterp spec fn plist_xml(bytes: Seq<u8>) -> Result<PlistView, Seq<char>>;

/// What a `plist::Value` holds.
pub uninterp spec fn plist_value(v: PlistNode) -> PlistView;

/// How `plist::Error` prints itself.
pub uninterp spec fn plist_error(e: PlistFault) -> Seq<char>;

/// One level of a `plist::Value`.
pub enum Shape {
    Array(Vec<PlistNode>),
    Dictionary(Vec<(String, PlistNode)>),
    Data(Vec<u8>),
    Integer(Option<i64>),
    Text(String),
    Other,
}

/// What one level of a value stands for.
pub open spec fn shape_of(s: Shape) -> PlistView {
    match s {
        Shape::Array(v) => PlistView::Array(Seq::new(v@.len(), |i: int| plist_value(v@[i]))),
        Shape::Dictionary(v) => PlistView::Dictionary(
            Seq::new(v@.len(), |i: int| (v@[i].0@, plist_value(v@[i].1))),
        ),
        Shape::Data(b) => PlistView::Data(b@),
        Shape::Integer(n) => PlistView::Integer(n),
        Shape::Text(t) => PlistView::Text(t@),
        Shape::Other => PlistView::Other,
    }
}

/// The most elements inside one another that are read.
pub const MAX_LEVELS: usize = 512;

/// `plist::Value::from_reader_xml` on bytes in memory. Its result is a function of the bytes. It
/// panics on a date that is out of range once it is turned into UTC, so that bytes with a date of
/// which this cannot be ruled out are not given to it. It builds values of any depth, and drops
/// them level by level on the stack when it gives them up, so that bytes with more than
/// `MAX_LEVELS` elements open at once are not given to it either.
#[verifier::external_body]
fn read_xml(bytes: &[u8]) -> (r: Result<PlistNode, PlistFault>)
    requires
        !holds_wild_date(bytes@),
        nesting_bound(bytes@) <= MAX_LEVELS,
    ensures
        match r {
            Ok(v) => plist_xml(bytes@) == Ok::<PlistView, Seq<char>>(plist_value(v)),
            Err(e) => plist_xml(bytes@) == Err::<PlistView, Seq<char>>(plist_error(e)),
        },
{
    PlistNode::from_reader_xml(bytes)
}

/// `Display` of a `plist::Error`.
#[verifier::external_body]
fn error_text(e: &PlistFault) -> (r: String)
    ensures
        r@ == plist_error(*e),
{
    e.to_string()
}

/// The variants of `plist::Value`, one for one; an integer by `Integer::as_signed`, a
/// dictionary as the list of its entries.
#[verifier::external_body]
fn open_value(v: PlistNode) -> (r: Shape)
    ensures
        shape_of(r) == plist_value(v),
{
    match v {
        PlistNode::Array(a) => Shape::Array(a),
        PlistNode::Dictionary(d) => Shape::Dictionary(d.into_iter().collect()),
        PlistNode::Data(b) => Shape::Data(b),
        PlistNode::Integer(n) => Shape::Integer(n.as_signed()),
        PlistNode::String(s) => Shape::Text(s),
        _ => Shape::Other,
    }
}

fn convert(v: PlistNode) -> (r: Plist)
    ensures
        r@ == plist_value(v),
    decreases plist_value(v),
{
    let shape = open_value(v);
    match shape {
        Shape::Data(b) => Plist::Data(b),
        Shape::Integer(n) => Plist::Integer(n),
        Shape::Text(s) => Plist::Text(s),
        Shape::Other => Plist::Other,
        Shape::Array(items) => {
            let ghost all = items@;
            let ghost inner = plist_value(v)->Array_0;
            let mut out: Vec<Plist> = Vec::new();
            for item in it: items
                invariant
                    it.seq() == all,
                    plist_value(v) == PlistView::Array(inner),
                    inner == Seq::new(all.len(), |i: int| plist_value(all[i])),
                    out@.len() == it.index(),
                    forall|k: int| 0 <= k < it.index() ==> (#[trigger] out@[k])@ == plist_value(
                        all[k],
                    ),
            {
                let ghost at = it.index() as int;
                assert(item == all[at]);
                assert(inner[at] == plist_value(item));
                assert(decreases_to!(plist_value(v) => plist_value(v)->Array_0[at]));
                out.push(convert(item));
            }
            let r = Plist::Array(out);
            assert(r@->Array_0 =~= inner);
            r
        },
        Shape::Dictionary(entries) => {
            let ghost all = entries@;
            let ghost inner = plist_value(v)->Dictionary_0;
            let mut out: Vec<(String, Plist)> = Vec::new();
            for entry in it: entries
                invariant
                    it.seq() == all,
                    plist_value(v) == PlistView::Dictionary(inner),
                    inner == Seq::new(all.len(), |i: int| (all[i].0@, plist_value(all[i].1))),
                    out@.len() == it.index(),
                    forall|k: int|
                        0 <= k < it.index() ==> (#[trigger] out@[k]).0@ == all[k].0@ && out@[k].1@
                            == plist_value(all[k].1),
            {
                let ghost at = it.index() as int;
                assert(entry == all[at]);
                assert(inner[at].1 == plist_value(entry.1));
                assert(decreases_to!(plist_value(v) => plist_value(v)->Dictionary_0[at].1));
                let (key, value) = entry;
                out.push((key, convert(value)));
            }
            let r = Plist::Dictionary(out);
            assert(r@->Dictionary_0 =~= inner);
            r
        },
    }
}

/// What a byte sequence comes to: what `plist` reads from it, unless it holds a date that `plist`
/// cannot be given, or is nested too deep.
pub open spec fn document(bytes: Seq<u8>) -> Result<PlistView, Seq<char>> {
    if holds_wild_date(bytes) {
        Err("a date is out of range"@)
    } else if nesting_bound(bytes) > MAX_LEVELS {
        Err("nested too deep"@)
    } else {
        plist_xml(bytes)
    }
}

/// Reads an XML property list.
pub fn parse_xml(bytes: &[u8]) -> (r: Result<Plist, String>)
    ensures
        match r {
            Ok(p) => document(bytes@) == Ok::<PlistView, Seq<char>>(p@),
            Err(e) => document(bytes@) == Err::<PlistView, Seq<char>>(e@),
        },
{
    if has_wild_date(bytes) {
        return Err("a date is out of range".to_owned());
    }
    if nesting(bytes) > MAX_LEVELS {
        return Err("nested too deep".to_owned());
    }
    match read_xml(bytes) {
        Ok(v) => Ok(convert(v)),
        Err(e) => Err(error_text(&e)),
    }
}

/// The value of the first entry, from position `i` on, whose key is `key`.
pub open spec fn entry_from(
    entries: Seq<(Seq<char>, PlistView)>,
    key: Seq<char>,
    i: int,
) -> Option<PlistView>
    decreases entries.len() - i,
{
    if i < 0 || i >= entries.len() {
        None
    } else if entries[i].0 == key {
        Some(entries[i].1)
    } else {
        entry_from(entries, key, i + 1)
    }
}

impl PlistView {
    /// The value under a key, in a dictionary.
    pub open spec fn get(self, key: Seq<char>) -> Option<PlistView> {
        match self {
            PlistView::Dictionary(entries) => entry_from(entries, key, 0),
            _ => None,
        }
    }

    /// The text under a key.
    pub open spec fn get_text(self, key: Seq<char>) -> Option<Seq<char>> {
        match self.get(key) {
            Some(PlistView::Text(s)) => Some(s),
            _ => None,
        }
    }
}

impl Plist {
    /// The value under a key, in a dictionary.
    pub fn get(&self, key: &str) -> (r: Option<&Plist>)
        ensures
            match r {
                Some(p) => self@.get(key@) == Some(p@),
                None => self@.get(key@) is None,
            },
    {
        match self {
            Plist::Dictionary(entries) => {
                let ghost all = self@->Dictionary_0;
                let mut i: usize = 0;
                while i < entries.len()
                    invariant
                        i <= entries@.len(),
                        *self == Plist::Dictionary(*entries),
                        all == self@->Dictionary_0,
                        self@.get(key@) == entry_from(all, key@, i as int),
                    decreases entries@.len() - i,
                {
                    assert(all[i as int] == (entries@[i as int].0@, entries@[i as int].1@));
                    if crate::text::same(entries[i].0.as_str(), key) {
                        return Some(&entries[i].1);
                    }
                    i = i + 1;
                }
                None
            },
            _ => None,
        }
    }

    /// The text under a key.
    pub fn get_text(&self, key: &str) -> (r: Option<&str>)
        ensures
            match r {
                Some(s) => self@.get_text(key@) == Some(s@),
                None => self@.get_text(key@) is None,
            },
    {
        match self.get(key) {
            Some(Plist::Text(s)) => Some(s.as_str()),
            _ => None,
        }
    }
}

/// Whether the entry at `i` is the first under the key.
pub open spec fn is_first_under(
    entries: Seq<(Seq<char>, PlistView)>,
    key: Seq<char>,
    i: int,
) -> bool {
    0 <= i < entries.len() && entries[i].0 == key && forall|k: int|
        0 <= k < i ==> (#[trigger] entries[k]).0 != key
}

proof fn lemma_entry(entries: Seq<(Seq<char>, PlistView)>, key: Seq<char>, i: int)
    requires
        0 <= i <= entries.len(),
        forall|k: int| 0 <= k < i ==> (#[trigger] entries[k]).0 != key,
    ensures
        match entry_from(entries, key, i) {
            Some(v) => exists|j: int| #[trigger]
                is_first_under(entries, key, j) && v == entries[j].1,
            None => forall|k: int| 0 <= k < entries.len() ==> (#[trigger] entries[k]).0 != key,
        },
    decreases entries.len() - i,
{
    if i < entries.len() {
        if entries[i].0 == key {
            assert(is_first_under(entries, key, i));
        } else {
            lemma_entry(entries, key, i + 1);
        }
    }
}

/// A value is found in a dictionary, under its key: the first one there. It counts as a text only
/// when it is one, and nothing but a dictionary has values under keys.
pub proof fn law_value_is_found_by_key(
    p: PlistView,
    entries: Seq<(Seq<char>, PlistView)>,
    key: Seq<char>,
    i: int,
)
    ensures
        is_first_under(entries, key, i) ==> PlistView::Dictionary(entries).get(key) == Some(
            entries[i].1,
        ),
        (forall|k: int| 0 <= k < entries.len() ==> (#[trigger] entries[k]).0 != key)
            ==> PlistView::Dictionary(entries).get(key) is None,
        !(p is Dictionary) ==> p.get(key) is None,
        p.get(key) matches Some(PlistView::Text(s)) ==> p.get_text(key) == Some(s),
        p.get(key) matches Some(v) ==> !(v is Text) ==> p.get_text(key) is None,
        p.get(key) is None ==> p.get_text(key) is None,
{
    lemma_entry(entries, key, 0);
    if is_first_under(entries, key, i) {
        let v = entry_from(entries, key, 0);
        assert(v is Some) by {
            assert(entries[i].0 == key);
        }
        let j = choose|j: int| #[trigger] is_first_under(entries, key, j) && v->0 == entries[j].1;
        assert(i == j) by {
            if i < j {
                assert(entries[i].0 != key);
            }
            if j < i {
                assert(entries[j].0 != key);
            }
        }
    }
}

/// A document with a date that cannot be represented, or nested deeper than is read, is refused in
/// plain words; any other is what the reader makes of it.
pub proof fn law_document_is_refused_or_read(bytes: Seq<u8>)
    ensures
        holds_wild_date(bytes) ==> document(bytes) == Err::<PlistView, Seq<char>>(
            "a date is out of range"@,
        ),
        !holds_wild_date(bytes) && nesting_bound(bytes) > MAX_LEVELS ==> document(bytes) == Err::<
            PlistView,
            Seq<char>,
        >("nested too deep"@),
        !holds_wild_date(bytes) && nesting_bound(bytes) <= MAX_LEVELS ==> document(bytes)
            == plist_xml(bytes),
{
}

} // verus!
