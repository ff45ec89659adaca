//! vici message encoding and decoding.
//!
//! A vici message is an ordered tree of named elements. On the wire each element is
//! introduced by a one-byte type tag:
//!
//! | tag | element        | payload                                        |
//! |-----|----------------|------------------------------------------------|
//! | 1   | SECTION_START  | name; nested elements follow until SECTION_END |
//! | 2   | SECTION_END    |                                                |
//! | 3   | KEY_VALUE      | name and value                                 |
//! | 4   | LIST_START     | name; LIST_ITEMs follow until LIST_END         |
//! | 5   | LIST_ITEM      | value                                          |
//! | 6   | LIST_END       |                                                |
//!
//! Names have a 1-byte length prefix (at most 255); values have a 2-byte big-endian length
//! prefix (at most 65535).

use crate::text::{join, join_all, lossy, lossy_text, same, views};
use vstd::prelude::*;
use vstd::slice::slice_subrange;
use vstd::utf8::{encode_utf8, encode_utf8_decode_utf8, encode_utf8_valid_utf8};

verus! {

pub const SECTION_START: u8 = 1;

pub const SECTION_END: u8 = 2;

pub const KEY_VALUE: u8 = 3;

pub const LIST_START: u8 = 4;

pub const LIST_ITEM: u8 = 5;

pub const LIST_END: u8 = 6;

/// Why a message could not be encoded or decoded.
#[derive(Debug, Clone, Copy, PartialEq, Eq)]
pub enum CodecError {
    NameTooLong,
    ValueTooLong,
    Malformed(&'static str),
}

impl CodecError {
    /// The text of the error.
    pub open spec fn text(self) -> Seq<char> {
        match self {
            CodecError::NameTooLong => "element name exceeds 255 bytes"@,
            CodecError::ValueTooLong => "value exceeds 65535 bytes"@,
            CodecError::Malformed(what) => "malformed vici message: "@ + what@,
        }
    }

    /// What to tell the user.
    pub fn message(&self) -> (r: String)
        ensures
            r@ == self.text(),
    {
        match self {
            CodecError::NameTooLong => "element name exceeds 255 bytes".to_owned(),
            CodecError::ValueTooLong => "value exceeds 65535 bytes".to_owned(),
            CodecError::Malformed(what) => {
                let mut s = "malformed vici message: ".to_owned();
                s.append(what);
                s
            },
        }
    }
}

#[derive(Debug, PartialEq, Eq)]
pub enum Value {
    Str(Vec<u8>),
    List(Vec<Vec<u8>>),
    Section(Message),
}

/// An ordered vici message.
#[derive(Debug, PartialEq, Eq)]
pub struct Message {
    pub entries: Vec<(String, Value)>,
}

/// The content of a [`Value`].
pub enum ValueView {
    Str(Seq<u8>),
    List(Seq<Seq<u8>>),
    Section(MessageView),
}

/// The content of a [`Message`].
pub struct MessageView {
    pub entries: Seq<(Seq<char>, ValueView)>,
}

/// The bytes of a list of items.
pub open spec fn item_views(v: Seq<Vec<u8>>) -> Seq<Seq<u8>> {
    Seq::new(v.len(), |i: int| v[i]@)
}

/// The content of a value.
pub open spec fn value_of(v: Value) -> ValueView
    decreases v,
{
    match v {
        Value::Str(b) => ValueView::Str(b@),
        Value::List(items) => ValueView::List(item_views(items@)),
        Value::Section(m) => ValueView::Section(message_of(m)),
    }
}

/// The content of a message.
pub open spec fn message_of(m: Message) -> MessageView
    decreases m,
{
    MessageView {
        entries: Seq::new(
            m.entries@.len(),
            |i: int|
                if 0 <= i < m.entries@.len() {
                    (m.entries@[i].0@, value_of(m.entries@[i].1))
                } else {
                    (Seq::empty(), ValueView::Str(Seq::empty()))
                },
        ),
    }
}

impl View for Value {
    type V = ValueView;

    open spec fn view(&self) -> ValueView {
        value_of(*self)
    }
}

impl View for Message {
    type V = MessageView;

    open spec fn view(&self) -> MessageView {
        message_of(*self)
    }
}

/// A message without elements.
pub open spec fn empty_message() -> MessageView {
    MessageView { entries: Seq::empty() }
}

/// The value of the first element, from position `i` on, with the given name.
pub open spec fn element_from(
    entries: Seq<(Seq<char>, ValueView)>,
    key: Seq<char>,
    i: int,
) -> Option<ValueView>
    decreases entries.len() - i,
{
    if i < 0 || i >= entries.len() {
        None
    } else if entries[i].0 == key {
        Some(entries[i].1)
    } else {
        element_from(entries, key, i + 1)
    }
}

/// The sections among the first `n` elements.
pub open spec fn sections_in(entries: Seq<(Seq<char>, ValueView)>, n: int) -> Seq<
    (Seq<char>, MessageView),
>
    decreases n,
{
    if n <= 0 {
        Seq::empty()
    } else {
        match entries[n - 1].1 {
            ValueView::Section(m) => sections_in(entries, n - 1).push((entries[n - 1].0, m)),
            _ => sections_in(entries, n - 1),
        }
    }
}

impl MessageView {
    /// The message with one more element.
    pub open spec fn with(self, key: Seq<char>, value: ValueView) -> MessageView {
        MessageView { entries: self.entries.push((key, value)) }
    }

    /// The message with one more text.
    pub open spec fn with_str(self, key: Seq<char>, value: Seq<char>) -> MessageView {
        self.with(key, ValueView::Str(encode_utf8(value)))
    }

    /// The message with one more list of texts.
    pub open spec fn with_list(self, key: Seq<char>, items: Seq<Seq<char>>) -> MessageView {
        self.with(key, ValueView::List(Seq::new(items.len(), |i: int| encode_utf8(items[i]))))
    }

    /// The value of the first element with the given name.
    pub open spec fn get(self, key: Seq<char>) -> Option<ValueView> {
        element_from(self.entries, key, 0)
    }

    /// The text of the first element with the given name, when it is a string.
    pub open spec fn get_str(self, key: Seq<char>) -> Option<Seq<char>> {
        match self.get(key) {
            Some(ValueView::Str(b)) => Some(lossy(b)),
            _ => None,
        }
    }

    /// The first element with the given name, when it is a section.
    pub open spec fn get_section(self, key: Seq<char>) -> Option<MessageView> {
        match self.get(key) {
            Some(ValueView::Section(m)) => Some(m),
            _ => None,
        }
    }

    /// The texts of the first element with the given name, when it is a list.
    pub open spec fn get_list(self, key: Seq<char>) -> Option<Seq<Seq<char>>> {
        match self.get(key) {
            Some(ValueView::List(l)) => Some(Seq::new(l.len(), |i: int| lossy(l[i]))),
            _ => None,
        }
    }

    /// The direct sub-sections.
    pub open spec fn sections(self) -> Seq<(Seq<char>, MessageView)> {
        sections_in(self.entries, self.entries.len() as int)
    }
}

/// The wire form of a name.
pub open spec fn name_bytes(name: Seq<char>) -> Seq<u8> {
    seq![encode_utf8(name).len() as u8] + encode_utf8(name)
}

/// The wire form of a value.
pub open spec fn value_bytes(v: Seq<u8>) -> Seq<u8> {
    seq![(v.len() / 256) as u8, (v.len() % 256) as u8] + v
}

/// The wire form of the items of a list, with its end.
pub open spec fn items_bytes(items: Seq<Seq<u8>>) -> Seq<u8>
    decreases items.len(),
{
    if items.len() == 0 {
        seq![LIST_END]
    } else {
        seq![LIST_ITEM] + value_bytes(items[0]) + items_bytes(items.subrange(
            1,
            items.len() as int,
        ))
    }
}

/// The wire form of one element.
pub open spec fn element_bytes(key: Seq<char>, value: ValueView) -> Seq<u8>
    decreases value,
{
    match value {
        ValueView::Str(v) => seq![KEY_VALUE] + name_bytes(key) + value_bytes(v),
        ValueView::List(items) => seq![LIST_START] + name_bytes(key) + items_bytes(items),
        ValueView::Section(m) => seq![SECTION_START] + name_bytes(key) + elements_bytes(m.entries)
            + seq![SECTION_END],
    }
}

/// The wire form of a list of elements.
pub open spec fn elements_bytes(entries: Seq<(Seq<char>, ValueView)>) -> Seq<u8>
    decreases entries,
{
    if entries.len() == 0 {
        Seq::empty()
    } else {
        element_bytes(entries[0].0, entries[0].1) + elements_bytes(
            entries.subrange(1, entries.len() as int),
        )
    }
}

/// Whether a name can be encoded.
pub open spec fn name_fault(name: Seq<char>) -> Option<CodecError> {
    if encode_utf8(name).len() > 255 {
        Some(CodecError::NameTooLong)
    } else {
        None
    }
}

/// Whether a value can be encoded.
pub open spec fn value_fault(v: Seq<u8>) -> Option<CodecError> {
    if v.len() > 65535 {
        Some(CodecError::ValueTooLong)
    } else {
        None
    }
}

/// The first fault in the items of a list.
pub open spec fn items_fault(items: Seq<Seq<u8>>) -> Option<CodecError>
    decreases items.len(),
{
    if items.len() == 0 {
        None
    } else if value_fault(items[0]) is Some {
        value_fault(items[0])
    } else {
        items_fault(items.subrange(1, items.len() as int))
    }
}

/// The first fault in an element.
pub open spec fn element_fault(key: Seq<char>, value: ValueView) -> Option<CodecError>
    decreases value,
{
    if name_fault(key) is Some {
        name_fault(key)
    } else {
        match value {
            ValueView::Str(v) => value_fault(v),
            ValueView::List(items) => items_fault(items),
            ValueView::Section(m) => elements_fault(m.entries),
        }
    }
}

/// The first fault in a list of elements.
pub open spec fn elements_fault(entries: Seq<(Seq<char>, ValueView)>) -> Option<CodecError>
    decreases entries,
{
    if entries.len() == 0 {
        None
    } else if element_fault(entries[0].0, entries[0].1) is Some {
        element_fault(entries[0].0, entries[0].1)
    } else {
        elements_fault(entries.subrange(1, entries.len() as int))
    }
}

/// The wire form of a message, or the first name or value that is too long for it.
pub open spec fn encoded(m: MessageView) -> Result<Seq<u8>, CodecError> {
    match elements_fault(m.entries) {
        Some(e) => Err(e),
        None => Ok(elements_bytes(m.entries)),
    }
}

/// The name at the front of `b`, and what follows it.
pub open spec fn take_name(b: Seq<u8>) -> Result<(Seq<char>, Seq<u8>), CodecError> {
    if b.len() == 0 {
        Err(CodecError::Malformed("truncated name length"))
    } else if b.len() - 1 < b[0] {
        Err(CodecError::Malformed("truncated name"))
    } else {
        Ok((lossy(b.subrange(1, 1 + b[0])), b.skip(1 + b[0] as int)))
    }
}

/// The value at the front of `b`, and what follows it.
pub open spec fn take_value(b: Seq<u8>) -> Result<(Seq<u8>, Seq<u8>), CodecError> {
    if b.len() < 2 {
        Err(CodecError::Malformed("truncated value length"))
    } else {
        let len = b[0] * 256 + b[1];
        if b.len() - 2 < len {
            Err(CodecError::Malformed("truncated value"))
        } else {
            Ok((b.subrange(2, 2 + len), b.skip(2 + len)))
        }
    }
}

/// The items at the front of `b` up to the end of the list, and what follows it.
pub open spec fn take_items(b: Seq<u8>) -> Result<(Seq<Seq<u8>>, Seq<u8>), CodecError>
    decreases b.len(),
{
    if b.len() == 0 {
        Err(CodecError::Malformed("unterminated list"))
    } else if b[0] == LIST_END {
        Ok((Seq::empty(), b.skip(1)))
    } else if b[0] == LIST_ITEM {
        match take_value(b.skip(1)) {
            Err(e) => Err(e),
            Ok((v, rest)) => match take_items(rest) {
                Err(e) => Err(e),
                Ok((more, rest)) => Ok((seq![v] + more, rest)),
            },
        }
    } else {
        Err(CodecError::Malformed("unexpected element in list"))
    }
}

/// What follows the elements at the front of `b` is never longer than `b`.
pub proof fn lemma_take_items_shrinks(b: Seq<u8>)
    ensures
        take_items(b) matches Ok(x) ==> x.1.len() < b.len(),
    decreases b.len(),
{
    if b.len() > 0 && b[0] == LIST_ITEM {
        if let Ok((v, rest)) = take_value(b.skip(1)) {
            lemma_take_items_shrinks(rest);
        }
    }
}

/// A list of elements.
pub type Elements = Seq<(Seq<char>, ValueView)>;

/// The elements at the front of `b`: all of it at the top, up to the end of the section inside
/// one; and what follows.
pub open spec fn take_elements(b: Seq<u8>, at_top: bool) -> Result<
    (Elements, Seq<u8>),
    CodecError,
>
    decreases b.len(), 1int,
{
    if b.len() == 0 {
        if at_top {
            Ok((Seq::empty(), b))
        } else {
            Err(CodecError::Malformed("unterminated section"))
        }
    } else if b[0] == SECTION_END {
        if at_top {
            Err(CodecError::Malformed("unexpected section end"))
        } else {
            Ok((Seq::empty(), b.skip(1)))
        }
    } else {
        match take_element(b) {
            Err(e) => Err(e),
            Ok((element, rest)) => if rest.len() < b.len() {
                match take_elements(rest, at_top) {
                    Err(e) => Err(e),
                    Ok((more, rest)) => Ok((seq![element] + more, rest)),
                }
            } else {
                Err(CodecError::Malformed("unknown element type"))
            },
        }
    }
}

/// The element at the front of `b`, and what follows it.
pub open spec fn take_element(b: Seq<u8>) -> Result<((Seq<char>, ValueView), Seq<u8>), CodecError>
    decreases b.len(), 0int,
    when b.len() > 0
{
    if b[0] == SECTION_START {
        match take_name(b.skip(1)) {
            Err(e) => Err(e),
            Ok((name, rest)) => match take_elements(rest, false) {
                Err(e) => Err(e),
                Ok((sub, rest)) => Ok(
                    ((name, ValueView::Section(MessageView { entries: sub })), rest),
                ),
            },
        }
    } else if b[0] == KEY_VALUE {
        match take_name(b.skip(1)) {
            Err(e) => Err(e),
            Ok((name, rest)) => match take_value(rest) {
                Err(e) => Err(e),
                Ok((v, rest)) => Ok(((name, ValueView::Str(v)), rest)),
            },
        }
    } else if b[0] == LIST_START {
        match take_name(b.skip(1)) {
            Err(e) => Err(e),
            Ok((name, rest)) => match take_items(rest) {
                Err(e) => Err(e),
                Ok((items, rest)) => Ok(((name, ValueView::List(items)), rest)),
            },
        }
    } else {
        Err(CodecError::Malformed("unknown element type"))
    }
}

/// The message that a byte sequence is the wire form of.
pub open spec fn decoded(b: Seq<u8>) -> Result<MessageView, CodecError> {
    match take_elements(b, true) {
        Err(e) => Err(e),
        Ok((entries, _)) => Ok(MessageView { entries }),
    }
}

/// What follows an element is shorter than what it was taken from.
pub proof fn lemma_take_element_shrinks(b: Seq<u8>)
    requires
        b.len() > 0,
    ensures
        take_element(b) matches Ok(x) ==> x.1.len() < b.len(),
    decreases b.len(), 0int,
{
    if let Ok((name, rest)) = take_name(b.skip(1)) {
        if b[0] == SECTION_START {
            lemma_take_elements_shrinks(rest, false);
        } else if b[0] == LIST_START {
            lemma_take_items_shrinks(rest);
        }
    }
}

/// What follows a list of elements is no longer than what they were taken from.
pub proof fn lemma_take_elements_shrinks(b: Seq<u8>, at_top: bool)
    ensures
        take_elements(b, at_top) matches Ok(x) ==> x.1.len() <= b.len(),
    decreases b.len(), 1int,
{
    if b.len() > 0 && b[0] != SECTION_END {
        lemma_take_element_shrinks(b);
        if let Ok((element, rest)) = take_element(b) {
            lemma_take_elements_shrinks(rest, at_top);
        }
    }
}

/// Decoding takes a name back off the front of its wire form.
proof fn lemma_name_back(name: Seq<char>, tail: Seq<u8>)
    requires
        name_fault(name) is None,
    ensures
        take_name(name_bytes(name) + tail) == Ok::<(Seq<char>, Seq<u8>), CodecError>((name, tail)),
{
    let e = encode_utf8(name);
    let b = name_bytes(name) + tail;
    vstd::utf8::encode_utf8_valid_utf8(name);
    vstd::utf8::encode_utf8_decode_utf8(name);
    assert(b[0] == e.len());
    assert(b.subrange(1, 1 + b[0]) =~= e);
    assert(b.skip(1 + b[0] as int) =~= tail);
}

/// Decoding takes a value back off the front of its wire form.
proof fn lemma_value_back(v: Seq<u8>, tail: Seq<u8>)
    requires
        value_fault(v) is None,
    ensures
        take_value(value_bytes(v) + tail) == Ok::<(Seq<u8>, Seq<u8>), CodecError>((v, tail)),
{
    let b = value_bytes(v) + tail;
    let len = b[0] * 256 + b[1];
    assert(len == v.len());
    assert(b.subrange(2, 2 + len) =~= v);
    assert(b.skip(2 + len) =~= tail);
}

/// Decoding takes the items of a list back off the front of their wire form.
proof fn lemma_items_back(items: Seq<Seq<u8>>, tail: Seq<u8>)
    requires
        items_fault(items) is None,
    ensures
        take_items(items_bytes(items) + tail) == Ok::<(Seq<Seq<u8>>, Seq<u8>), CodecError>(
            (items, tail),
        ),
    decreases items.len(),
{
    let b = items_bytes(items) + tail;
    if items.len() == 0 {
        assert(b.skip(1) =~= tail);
        assert(items =~= Seq::empty());
    } else {
        let others = items.subrange(1, items.len() as int);
        lemma_items_back(others, tail);
        lemma_value_back(items[0], items_bytes(others) + tail);
        assert(b.skip(1) =~= value_bytes(items[0]) + (items_bytes(others) + tail));
        assert(seq![items[0]] + others =~= items);
    }
}

/// Decoding takes an element back off the front of its wire form.
proof fn lemma_element_back(key: Seq<char>, value: ValueView, tail: Seq<u8>)
    requires
        element_fault(key, value) is None,
    ensures
        element_bytes(key, value).len() > 0,
        element_bytes(key, value)[0] != SECTION_END,
        take_element(element_bytes(key, value) + tail) == Ok::<
            ((Seq<char>, ValueView), Seq<u8>),
            CodecError,
        >(((key, value), tail)),
    decreases value,
{
    let b = element_bytes(key, value) + tail;
    match value {
        ValueView::Str(v) => {
            assert(b.skip(1) =~= name_bytes(key) + (value_bytes(v) + tail));
            lemma_name_back(key, value_bytes(v) + tail);
            lemma_value_back(v, tail);
        },
        ValueView::List(items) => {
            assert(b.skip(1) =~= name_bytes(key) + (items_bytes(items) + tail));
            lemma_name_back(key, items_bytes(items) + tail);
            lemma_items_back(items, tail);
        },
        ValueView::Section(m) => {
            let rest = elements_bytes(m.entries) + (seq![SECTION_END] + tail);
            assert(b.skip(1) =~= name_bytes(key) + rest);
            lemma_name_back(key, rest);
            lemma_elements_back(m.entries, seq![SECTION_END] + tail, false);
            assert((seq![SECTION_END] + tail).skip(1) =~= tail);
            assert(m.entries + Seq::<(Seq<char>, ValueView)>::empty() =~= m.entries);
        },
    }
}

/// Decoding takes a list of elements back off the front of its wire form.
proof fn lemma_elements_back(entries: Elements, tail: Seq<u8>, at_top: bool)
    requires
        elements_fault(entries) is None,
    ensures
        match take_elements(tail, at_top) {
            Ok((more, rest)) => take_elements(elements_bytes(entries) + tail, at_top) == Ok::<
                (Elements, Seq<u8>),
                CodecError,
            >((entries + more, rest)),
            Err(e) => take_elements(elements_bytes(entries) + tail, at_top) == Err::<
                (Elements, Seq<u8>),
                CodecError,
            >(e),
        },
    decreases entries,
{
    if entries.len() == 0 {
        assert(elements_bytes(entries) + tail =~= tail);
        if let Ok((more, rest)) = take_elements(tail, at_top) {
            assert(entries + more =~= more);
        }
    } else {
        let others = entries.subrange(1, entries.len() as int);
        let first = element_bytes(entries[0].0, entries[0].1);
        let next = elements_bytes(others) + tail;
        lemma_element_back(entries[0].0, entries[0].1, next);
        lemma_elements_back(others, tail, at_top);
        let b = elements_bytes(entries) + tail;
        assert(b =~= first + next);
        assert(b[0] == first[0]);
        lemma_take_element_shrinks(b);
        if let Ok((more, rest)) = take_elements(tail, at_top) {
            assert(seq![entries[0]] + (others + more) =~= entries + more);
        }
    }
}

/// Decoding is the inverse of encoding: every message that can be encoded comes back as it
/// was.
pub proof fn law_decode_inverts_encode(m: MessageView)
    requires
        encoded(m) is Ok,
    ensures
        decoded(encoded(m)->Ok_0) == Ok::<MessageView, CodecError>(m),
{
    let tail = Seq::<u8>::empty();
    lemma_elements_back(m.entries, tail, true);
    assert(elements_bytes(m.entries) + tail =~= elements_bytes(m.entries));
    assert(m.entries + Seq::<(Seq<char>, ValueView)>::empty() =~= m.entries);
}

/// Two messages with the same wire form are the same message.
pub proof fn law_encoding_is_unambiguous(a: MessageView, b: MessageView)
    requires
        encoded(a) is Ok,
        encoded(a) == encoded(b),
    ensures
        a == b,
{
    law_decode_inverts_encode(a);
    law_decode_inverts_encode(b);
}

/// A cut before the end of two parts lies in the first, or leaves it whole.
proof fn lemma_cut_of_two(x: Seq<u8>, y: Seq<u8>, n: int)
    requires
        0 <= n <= x.len() + y.len(),
    ensures
        n <= x.len() ==> (x + y).take(n) == x.take(n),
        n >= x.len() ==> (x + y).take(n) == x + y.take(n - x.len()),
{
    if n <= x.len() {
        assert((x + y).take(n) =~= x.take(n));
    }
    if n >= x.len() {
        assert((x + y).take(n) =~= x + y.take(n - x.len()));
    }
}

proof fn lemma_name_cut(name: Seq<char>, n: int)
    requires
        name_fault(name) is None,
        0 <= n < name_bytes(name).len(),
    ensures
        take_name(name_bytes(name).take(n)) matches Err(CodecError::Malformed(_)),
{
    let b = name_bytes(name);
    if n > 0 {
        assert(b.take(n)[0] == b[0]);
    }
}

proof fn lemma_value_cut(v: Seq<u8>, n: int)
    requires
        value_fault(v) is None,
        0 <= n < value_bytes(v).len(),
    ensures
        take_value(value_bytes(v).take(n)) matches Err(CodecError::Malformed(_)),
{
    let b = value_bytes(v);
    if n >= 2 {
        assert(b.take(n)[0] == b[0]);
        assert(b.take(n)[1] == b[1]);
        assert(b[0] * 256 + b[1] == v.len());
    }
}

proof fn lemma_items_cut(items: Seq<Seq<u8>>, n: int)
    requires
        items_fault(items) is None,
        0 <= n < items_bytes(items).len(),
    ensures
        take_items(items_bytes(items).take(n)) matches Err(CodecError::Malformed(_)),
    decreases items.len(),
{
    let b = items_bytes(items);
    if n > 0 {
        let others = items.subrange(1, items.len() as int);
        let first = value_bytes(items[0]);
        let rest = items_bytes(others);
        let cut = b.take(n);
        assert(cut[0] == LIST_ITEM);
        assert(cut.skip(1) =~= (first + rest).take(n - 1));
        lemma_cut_of_two(first, rest, n - 1);
        if n - 1 < first.len() {
            lemma_value_cut(items[0], n - 1);
        } else {
            lemma_value_back(items[0], rest.take(n - 1 - first.len()));
            lemma_items_cut(others, n - 1 - first.len());
        }
    }
}

proof fn lemma_element_cut(key: Seq<char>, value: ValueView, n: int)
    requires
        element_fault(key, value) is None,
        0 < n < element_bytes(key, value).len(),
    ensures
        take_element(element_bytes(key, value).take(n)) matches Err(CodecError::Malformed(_)),
    decreases value,
{
    let b = element_bytes(key, value);
    let cut = b.take(n);
    let name = name_bytes(key);
    let body = match value {
        ValueView::Str(v) => value_bytes(v),
        ValueView::List(items) => items_bytes(items),
        ValueView::Section(m) => elements_bytes(m.entries) + seq![SECTION_END],
    };
    assert(cut[0] == b[0]);
    assert(cut.skip(1) =~= (name + body).take(n - 1));
    lemma_cut_of_two(name, body, n - 1);
    if n - 1 < name.len() {
        lemma_name_cut(key, n - 1);
    } else {
        let k = n - 1 - name.len();
        lemma_name_back(key, body.take(k));
        match value {
            ValueView::Str(v) => {
                lemma_value_cut(v, k);
            },
            ValueView::List(items) => {
                lemma_items_cut(items, k);
            },
            ValueView::Section(m) => {
                let inner = elements_bytes(m.entries);
                lemma_cut_of_two(inner, seq![SECTION_END], k);
                if k < inner.len() {
                    lemma_elements_cut(m.entries, k, false);
                } else {
                    let nothing = Seq::<u8>::empty();
                    lemma_elements_back(m.entries, nothing, false);
                    assert(inner + nothing =~= inner);
                    assert(inner.take(k) =~= inner);
                }
            },
        }
    }
}

proof fn lemma_elements_cut(entries: Elements, n: int, at_top: bool)
    requires
        elements_fault(entries) is None,
        0 <= n < elements_bytes(entries).len(),
    ensures
        match take_elements(elements_bytes(entries).take(n), at_top) {
            Err(e) => e is Malformed,
            Ok((some, _)) => {
                &&& at_top
                &&& some.len() < entries.len()
                &&& some == entries.take(some.len() as int)
                &&& elements_fault(some) is None
                &&& elements_bytes(some) == elements_bytes(entries).take(n)
            },
        },
    decreases entries,
{
    let b = elements_bytes(entries);
    let cut = b.take(n);
    let others = entries.subrange(1, entries.len() as int);
    let first = element_bytes(entries[0].0, entries[0].1);
    let rest = elements_bytes(others);
    lemma_element_back(entries[0].0, entries[0].1, rest);
    lemma_cut_of_two(first, rest, n);
    if n == 0 {
        assert(cut =~= Seq::empty());
        assert(entries.take(0) =~= Seq::empty());
    } else {
        assert(cut[0] == first[0]);
        if n < first.len() {
            lemma_element_cut(entries[0].0, entries[0].1, n);
        } else {
            let k = n - first.len();
            lemma_element_back(entries[0].0, entries[0].1, rest.take(k));
            lemma_elements_cut(others, k, at_top);
            if let Ok((some, end)) = take_elements(rest.take(k), at_top) {
                let all = seq![entries[0]] + some;
                assert(all =~= entries.take(all.len() as int));
                assert(all.subrange(1, all.len() as int) =~= some);
                assert(elements_bytes(all) =~= cut);
            }
        }
    }
}

/// A message that is cut short is refused, or reads as some of its elements from the front and not
/// all of them: then the cut lies between two elements, and what is left is the wire form of those.
/// A cut inside a name, a value, a list or a section is always refused.
pub proof fn law_cut_message_is_refused_or_shorter(m: MessageView, n: int)
    requires
        encoded(m) is Ok,
        0 <= n < (encoded(m)->Ok_0).len(),
    ensures
        match decoded((encoded(m)->Ok_0).take(n)) {
            Err(e) => e is Malformed,
            Ok(some) => {
                &&& some.entries.len() < m.entries.len()
                &&& some.entries == m.entries.take(some.entries.len() as int)
                &&& encoded(some) == Ok::<Seq<u8>, CodecError>((encoded(m)->Ok_0).take(n))
            },
        },
{
    lemma_elements_cut(m.entries, n, true);
}

impl Default for Message {
    fn default() -> (r: Message)
        ensures
            r@ == empty_message(),
    {
        Message::new()
    }
}

/// The bytes of a slice, owned.
fn bytes_of(b: &[u8]) -> (r: Vec<u8>)
    ensures
        r@ == b@,
{
    let mut out: Vec<u8> = Vec::new();
    append_bytes(&mut out, b);
    assert(out@ =~= b@);
    out
}

/// Appends bytes to a buffer.
pub fn append_bytes(buf: &mut Vec<u8>, b: &[u8])
    ensures
        final(buf)@ == old(buf)@ + b@,
{
    buf.extend_from_slice(b);
    assert(buf@ =~= old(buf)@ + b@);
}

impl Message {
    pub fn new() -> (r: Message)
        ensures
            r@ == empty_message(),
    {
        let r = Message { entries: Vec::new() };
        assert(r@.entries =~= Seq::empty());
        r
    }

    fn push(self, key: &str, value: Value) -> (r: Message)
        ensures
            r@ == self@.with(key@, value@),
    {
        let mut m = self;
        m.entries.push((key.to_owned(), value));
        assert(m@.entries =~= self@.entries.push((key@, value@)));
        m
    }

    /// Adds a key and a text.
    pub fn str(self, key: &str, value: &str) -> (r: Message)
        ensures
            r@ == self@.with_str(key@, value@),
    {
        self.push(key, Value::Str(bytes_of(value.as_bytes())))
    }

    /// Adds a key and bytes.
    pub fn bytes(self, key: &str, value: Vec<u8>) -> (r: Message)
        ensures
            r@ == self@.with(key@, ValueView::Str(value@)),
    {
        self.push(key, Value::Str(value))
    }

    /// Adds a list of texts.
    pub fn list(self, key: &str, items: Vec<String>) -> (r: Message)
        ensures
            r@ == self@.with_list(key@, views(items@)),
    {
        let mut out: Vec<Vec<u8>> = Vec::new();
        let mut i: usize = 0;
        while i < items.len()
            invariant
                i <= items@.len(),
                out@.len() == i,
                forall|k: int| 0 <= k < i ==> (#[trigger] out@[k])@ == encode_utf8(items@[k]@),
            decreases items@.len() - i,
        {
            out.push(bytes_of(items[i].as_str().as_bytes()));
            i = i + 1;
        }
        assert(item_views(out@) =~= Seq::new(
            views(items@).len(),
            |i: int| encode_utf8(views(items@)[i]),
        ));
        self.push(key, Value::List(out))
    }

    /// Adds a nested section.
    pub fn section(self, key: &str, sub: Message) -> (r: Message)
        ensures
            r@ == self@.with(key@, ValueView::Section(sub@)),
    {
        self.push(key, Value::Section(sub))
    }

    /// The value of the first element with the given name.
    pub fn get(&self, key: &str) -> (r: Option<&Value>)
        ensures
            match r {
                Some(v) => self@.get(key@) == Some(v@),
                None => self@.get(key@) is None,
            },
    {
        let mut i: usize = 0;
        while i < self.entries.len()
            invariant
                i <= self.entries@.len(),
                self@.get(key@) == element_from(self@.entries, key@, i as int),
            decreases self.entries@.len() - i,
        {
            if same(self.entries[i].0.as_str(), key) {
                return Some(&self.entries[i].1);
            }
            i = i + 1;
        }
        None
    }

    /// The text of the first element with the given name, when it is a string.
    pub fn get_str(&self, key: &str) -> (r: Option<String>)
        ensures
            crate::model::opt_view(r) == self@.get_str(key@),
    {
        match self.get(key) {
            Some(Value::Str(b)) => Some(lossy_text(b.as_slice())),
            _ => None,
        }
    }

    /// The first element with the given name, when it is a section.
    pub fn get_section(&self, key: &str) -> (r: Option<&Message>)
        ensures
            match r {
                Some(m) => self@.get_section(key@) == Some(m@),
                None => self@.get_section(key@) is None,
            },
    {
        match self.get(key) {
            Some(Value::Section(m)) => Some(m),
            _ => None,
        }
    }

    /// The texts of the first element with the given name, when it is a list.
    pub fn get_list(&self, key: &str) -> (r: Option<Vec<String>>)
        ensures
            match r {
                Some(l) => self@.get_list(key@) == Some(views(l@)),
                None => self@.get_list(key@) is None,
            },
    {
        match self.get(key) {
            Some(Value::List(l)) => Some(texts_of(l)),
            _ => None,
        }
    }

    /// The direct sub-sections, with their names.
    pub fn sections(&self) -> (r: Vec<(&str, &Message)>)
        ensures
            Seq::new(r@.len(), |i: int| (r@[i].0@, r@[i].1@)) == self@.sections(),
    {
        let mut out: Vec<(&str, &Message)> = Vec::new();
        let mut i: usize = 0;
        assert(Seq::new(out@.len(), |k: int| (out@[k].0@, out@[k].1@)) =~= Seq::empty());
        while i < self.entries.len()
            invariant
                i <= self.entries@.len(),
                Seq::new(out@.len(), |k: int| (out@[k].0@, out@[k].1@)) == sections_in(
                    self@.entries,
                    i as int,
                ),
            decreases self.entries@.len() - i,
        {
            if let Value::Section(m) = &self.entries[i].1 {
                let ghost before = out@;
                out.push((self.entries[i].0.as_str(), m));
                assert(Seq::new(out@.len(), |k: int| (out@[k].0@, out@[k].1@)) =~= Seq::new(
                    before.len(),
                    |k: int| (before[k].0@, before[k].1@),
                ).push((self@.entries[i as int].0, m@)));
            }
            i = i + 1;
        }
        out
    }

    /// The message in readable form, one element to a line.
    pub fn pretty(&self) -> (r: String)
        ensures
            r@ == elements_text(self@.entries, Seq::empty()),
    {
        let mut out = String::new();
        let pad = String::new();
        pretty_into(self, pad.as_str(), &mut out);
        assert(out@ =~= elements_text(self@.entries, Seq::empty()));
        out
    }

    /// The wire form of the message.
    pub fn encode(&self) -> (r: Result<Vec<u8>, CodecError>)
        ensures
            match r {
                Ok(b) => encoded(self@) == Ok::<Seq<u8>, CodecError>(b@),
                Err(e) => encoded(self@) == Err::<Seq<u8>, CodecError>(e),
            },
    {
        let mut buf: Vec<u8> = Vec::new();
        encode_into(self, &mut buf)?;
        assert(buf@ =~= elements_bytes(self@.entries));
        Ok(buf)
    }

    /// The message that bytes are the wire form of.
    pub fn decode(buf: &[u8]) -> (r: Result<Message, CodecError>)
        ensures
            match r {
                Ok(m) => decoded(buf@) == Ok::<MessageView, CodecError>(m@),
                Err(e) => decoded(buf@) == Err::<MessageView, CodecError>(e),
            },
    {
        assert(buf@.skip(0) =~= buf@);
        match parse(buf, 0, true) {
            Ok((m, _)) => Ok(m),
            Err(e) => Err(e),
        }
    }
}

/// The readable form of one element, at an indentation.
pub open spec fn element_text(key: Seq<char>, value: ValueView, pad: Seq<char>) -> Seq<char>
    decreases value,
{
    match value {
        ValueView::Str(v) => pad + key + " = "@ + lossy(v) + "\n"@,
        ValueView::List(items) => pad + key + " = ["@ + join_all(
            Seq::new(items.len(), |i: int| lossy(items[i])),
            ", "@,
        ) + "]\n"@,
        ValueView::Section(m) => pad + key + " {\n"@ + elements_text(m.entries, pad + "  "@) + pad
            + "}\n"@,
    }
}

/// The readable form of a list of elements, at an indentation.
pub open spec fn elements_text(entries: Elements, pad: Seq<char>) -> Seq<char>
    decreases entries,
{
    if entries.len() == 0 {
        Seq::empty()
    } else {
        element_text(entries[0].0, entries[0].1, pad) + elements_text(
            entries.subrange(1, entries.len() as int),
            pad,
        )
    }
}

fn pretty_into(msg: &Message, pad: &str, out: &mut String)
    ensures
        final(out)@ == old(out)@ + elements_text(msg@.entries, pad@),
    decreases msg,
{
    let ghost all = msg@.entries;
    let mut i: usize = 0;
    assert(all.subrange(0, all.len() as int) =~= all);
    while i < msg.entries.len()
        invariant
            i <= msg.entries@.len(),
            all == msg@.entries,
            all.len() == msg.entries@.len(),
            out@ + elements_text(all.subrange(i as int, all.len() as int), pad@) == old(out)@
                + elements_text(all, pad@),
        decreases msg.entries@.len() - i,
    {
        let ghost rest = all.subrange(i as int, all.len() as int);
        let ghost start = out@;
        assert(rest[0] == (msg.entries@[i as int].0@, msg.entries@[i as int].1@));
        assert(rest.subrange(1, rest.len() as int) =~= all.subrange(i + 1, all.len() as int));
        out.append(pad);
        out.append(msg.entries[i].0.as_str());
        match &msg.entries[i].1 {
            Value::Str(v) => {
                out.append(" = ");
                out.append(lossy_text(v.as_slice()).as_str());
                out.append("\n");
                assert(out@ =~= start + element_text(rest[0].0, rest[0].1, pad@));
            },
            Value::List(items) => {
                let texts = texts_of(items);
                out.append(" = [");
                out.append(join(&texts, ", ").as_str());
                out.append("]\n");
                assert(Seq::new(items@.len(), |k: int| lossy(items@[k]@)) =~= Seq::new(
                    item_views(items@).len(),
                    |k: int| lossy(item_views(items@)[k]),
                ));
                assert(out@ =~= start + element_text(rest[0].0, rest[0].1, pad@));
            },
            Value::Section(sub) => {
                out.append(" {\n");
                let mut inner = pad.to_owned();
                inner.append("  ");
                assert(decreases_to!(*msg => msg.entries));
                assert(decreases_to!(msg.entries => msg.entries@));
                assert(decreases_to!(msg.entries@ => msg.entries@[i as int]));
                assert(decreases_to!(msg.entries@[i as int] => msg.entries@[i as int].1));
                pretty_into(sub, inner.as_str(), out);
                out.append(pad);
                out.append("}\n");
                assert(out@ =~= start + element_text(rest[0].0, rest[0].1, pad@));
            },
        }
        assert(out@ + elements_text(all.subrange(i + 1, all.len() as int), pad@) =~= start
            + elements_text(rest, pad@));
        i = i + 1;
    }
    assert(out@ =~= out@ + elements_text(all.subrange(i as int, all.len() as int), pad@));
}

/// The texts of a list of items.
fn texts_of(l: &Vec<Vec<u8>>) -> (r: Vec<String>)
    ensures
        views(r@) == Seq::new(l@.len(), |i: int| lossy(l@[i]@)),
{
    let mut out: Vec<String> = Vec::new();
    let mut i: usize = 0;
    while i < l.len()
        invariant
            i <= l@.len(),
            out@.len() == i,
            forall|k: int| 0 <= k < i ==> (#[trigger] out@[k])@ == lossy(l@[k]@),
        decreases l@.len() - i,
    {
        out.push(lossy_text(l[i].as_slice()));
        i = i + 1;
    }
    assert(views(out@) =~= Seq::new(l@.len(), |i: int| lossy(l@[i]@)));
    out
}

fn push_name(buf: &mut Vec<u8>, name: &str) -> (r: Result<(), CodecError>)
    ensures
        match r {
            Ok(_) => name_fault(name@) is None && final(buf)@ == old(buf)@ + name_bytes(name@),
            Err(e) => name_fault(name@) == Some(e),
        },
{
    let b = name.as_bytes();
    if b.len() > 255 {
        return Err(CodecError::NameTooLong);
    }
    buf.push(b.len() as u8);
    append_bytes(buf, b);
    assert(buf@ =~= old(buf)@ + name_bytes(name@));
    Ok(())
}

fn push_value(buf: &mut Vec<u8>, value: &Vec<u8>) -> (r: Result<(), CodecError>)
    ensures
        match r {
            Ok(_) => value_fault(value@) is None && final(buf)@ == old(buf)@ + value_bytes(value@),
            Err(e) => value_fault(value@) == Some(e),
        },
{
    let n: usize = value.len();
    if n > 65535 {
        return Err(CodecError::ValueTooLong);
    }
    buf.push((n / 256) as u8);
    buf.push((n % 256) as u8);
    append_bytes(buf, value.as_slice());
    assert(buf@ =~= old(buf)@ + value_bytes(value@));
    Ok(())
}

fn push_items(buf: &mut Vec<u8>, items: &Vec<Vec<u8>>) -> (r: Result<(), CodecError>)
    ensures
        match r {
            Ok(_) => items_fault(item_views(items@)) is None && final(buf)@ == old(buf)@
                + items_bytes(item_views(items@)),
            Err(e) => items_fault(item_views(items@)) == Some(e),
        },
{
    let ghost all = item_views(items@);
    let mut i: usize = 0;
    assert(all.subrange(0, all.len() as int) =~= all);
    while i < items.len()
        invariant
            i <= items@.len(),
            all == item_views(items@),
            items_fault(all) == items_fault(all.subrange(i as int, all.len() as int)),
            buf@ + items_bytes(all.subrange(i as int, all.len() as int)) == old(buf)@
                + items_bytes(all),
        decreases items@.len() - i,
    {
        let ghost rest = all.subrange(i as int, all.len() as int);
        let ghost before = buf@;
        assert(rest[0] == items@[i as int]@);
        assert(rest.subrange(1, rest.len() as int) =~= all.subrange(i + 1, all.len() as int));
        buf.push(LIST_ITEM);
        push_value(buf, &items[i])?;
        assert(buf@ + items_bytes(all.subrange(i + 1, all.len() as int)) =~= before + items_bytes(
            rest,
        ));
        i = i + 1;
    }
    let ghost before = buf@;
    buf.push(LIST_END);
    assert(buf@ =~= before + items_bytes(all.subrange(i as int, all.len() as int)));
    Ok(())
}

fn encode_into(msg: &Message, buf: &mut Vec<u8>) -> (r: Result<(), CodecError>)
    ensures
        match r {
            Ok(_) => elements_fault(msg@.entries) is None && final(buf)@ == old(buf)@
                + elements_bytes(msg@.entries),
            Err(e) => elements_fault(msg@.entries) == Some(e),
        },
    decreases msg,
{
    let ghost all = msg@.entries;
    let mut i: usize = 0;
    assert(all.subrange(0, all.len() as int) =~= all);
    while i < msg.entries.len()
        invariant
            i <= msg.entries@.len(),
            all == msg@.entries,
            all.len() == msg.entries@.len(),
            elements_fault(all) == elements_fault(all.subrange(i as int, all.len() as int)),
            buf@ + elements_bytes(all.subrange(i as int, all.len() as int)) == old(buf)@
                + elements_bytes(all),
        decreases msg.entries@.len() - i,
    {
        let ghost rest = all.subrange(i as int, all.len() as int);
        let ghost start = buf@;
        assert(rest[0] == (msg.entries@[i as int].0@, msg.entries@[i as int].1@));
        assert(rest.subrange(1, rest.len() as int) =~= all.subrange(i + 1, all.len() as int));
        let key = msg.entries[i].0.as_str();
        proof {
            reveal_with_fuel(elements_fault, 2);
            reveal_with_fuel(element_fault, 2);
        }
        match &msg.entries[i].1 {
            Value::Str(v) => {
                buf.push(KEY_VALUE);
                push_name(buf, key)?;
                push_value(buf, v)?;
                assert(buf@ =~= start + element_bytes(rest[0].0, rest[0].1));
            },
            Value::List(items) => {
                buf.push(LIST_START);
                push_name(buf, key)?;
                push_items(buf, items)?;
                assert(buf@ =~= start + element_bytes(rest[0].0, rest[0].1));
            },
            Value::Section(sub) => {
                buf.push(SECTION_START);
                push_name(buf, key)?;
                assert(decreases_to!(*msg => msg.entries));
                assert(decreases_to!(msg.entries => msg.entries@));
                assert(decreases_to!(msg.entries@ => msg.entries@[i as int]));
                assert(decreases_to!(msg.entries@[i as int] => msg.entries@[i as int].1));
                encode_into(sub, buf)?;
                buf.push(SECTION_END);
                assert(buf@ =~= start + element_bytes(rest[0].0, rest[0].1));
            },
        }
        assert(buf@ + elements_bytes(all.subrange(i + 1, all.len() as int)) =~= start
            + elements_bytes(rest));
        i = i + 1;
    }
    assert(buf@ =~= buf@ + elements_bytes(all.subrange(i as int, all.len() as int)));
    Ok(())
}

fn read_name(buf: &[u8], pos: usize) -> (r: Result<(String, usize), CodecError>)
    requires
        pos <= buf@.len(),
    ensures
        match r {
            Ok(x) => x.1 <= buf@.len() && take_name(buf@.skip(pos as int)) == Ok::<
                (Seq<char>, Seq<u8>),
                CodecError,
            >((x.0@, buf@.skip(x.1 as int))),
            Err(e) => take_name(buf@.skip(pos as int)) == Err::<(Seq<char>, Seq<u8>), CodecError>(
                e,
            ),
        },
{
    let n: usize = buf.len();
    let ghost b = buf@.skip(pos as int);
    if pos == n {
        return Err(CodecError::Malformed("truncated name length"));
    }
    let len: usize = buf[pos] as usize;
    assert(b[0] == buf@[pos as int]);
    if n - pos - 1 < len {
        return Err(CodecError::Malformed("truncated name"));
    }
    let bytes = slice_subrange(buf, pos + 1, pos + 1 + len);
    assert(bytes@ =~= b.subrange(1, 1 + b[0]));
    assert(b.skip(1 + b[0] as int) =~= buf@.skip(pos + 1 + len));
    Ok((lossy_text(bytes), pos + 1 + len))
}

fn read_value(buf: &[u8], pos: usize) -> (r: Result<(Vec<u8>, usize), CodecError>)
    requires
        pos <= buf@.len(),
    ensures
        match r {
            Ok(x) => x.1 <= buf@.len() && take_value(buf@.skip(pos as int)) == Ok::<
                (Seq<u8>, Seq<u8>),
                CodecError,
            >((x.0@, buf@.skip(x.1 as int))),
            Err(e) => take_value(buf@.skip(pos as int)) == Err::<(Seq<u8>, Seq<u8>), CodecError>(
                e,
            ),
        },
{
    let n: usize = buf.len();
    let ghost b = buf@.skip(pos as int);
    if n - pos < 2 {
        return Err(CodecError::Malformed("truncated value length"));
    }
    let len: usize = buf[pos] as usize * 256 + buf[pos + 1] as usize;
    assert(b[0] == buf@[pos as int]);
    assert(b[1] == buf@[pos + 1]);
    if n - pos - 2 < len {
        return Err(CodecError::Malformed("truncated value"));
    }
    let bytes = slice_subrange(buf, pos + 2, pos + 2 + len);
    assert(bytes@ =~= b.subrange(2, 2 + len));
    assert(b.skip(2 + len) =~= buf@.skip(pos + 2 + len));
    Ok((bytes_of(bytes), pos + 2 + len))
}

fn read_items(buf: &[u8], pos: usize) -> (r: Result<(Vec<Vec<u8>>, usize), CodecError>)
    requires
        pos <= buf@.len(),
    ensures
        match r {
            Ok(x) => x.1 <= buf@.len() && take_items(buf@.skip(pos as int)) == Ok::<
                (Seq<Seq<u8>>, Seq<u8>),
                CodecError,
            >((item_views(x.0@), buf@.skip(x.1 as int))),
            Err(e) => take_items(buf@.skip(pos as int)) == Err::<
                (Seq<Seq<u8>>, Seq<u8>),
                CodecError,
            >(e),
        },
{
    let n: usize = buf.len();
    let mut at: usize = pos;
    let mut items: Vec<Vec<u8>> = Vec::new();
    assert(item_views(items@) =~= Seq::empty());
    proof {
        if let Ok((more, rest)) = take_items(buf@.skip(pos as int)) {
            assert(item_views(items@) + more =~= more);
        }
    }
    loop
        invariant
            n == buf@.len(),
            pos <= at <= n,
            match take_items(buf@.skip(at as int)) {
                Ok((more, rest)) => take_items(buf@.skip(pos as int)) == Ok::<
                    (Seq<Seq<u8>>, Seq<u8>),
                    CodecError,
                >((item_views(items@) + more, rest)),
                Err(e) => take_items(buf@.skip(pos as int)) == Err::<
                    (Seq<Seq<u8>>, Seq<u8>),
                    CodecError,
                >(e),
            },
        decreases n - at,
    {
        let ghost b = buf@.skip(at as int);
        if at == n {
            return Err(CodecError::Malformed("unterminated list"));
        }
        let tag: u8 = buf[at];
        assert(b[0] == tag);
        assert(b.skip(1) =~= buf@.skip(at + 1));
        if tag == LIST_END {
            assert(item_views(items@) + Seq::<Seq<u8>>::empty() =~= item_views(items@));
            return Ok((items, at + 1));
        } else if tag == LIST_ITEM {
            let (v, next) = read_value(buf, at + 1)?;
            proof {
                let taken = take_value(b.skip(1));
                assert(buf@.skip(next as int).len() < b.len());
                assert(next > at);
            }
            let ghost before = items@;
            let ghost seen = v@;
            items.push(v);
            proof {
                assert(item_views(items@) =~= item_views(before).push(seen));
                if let Ok((more, rest)) = take_items(buf@.skip(next as int)) {
                    assert(item_views(before) + (seq![seen] + more) =~= item_views(items@) + more);
                }
            }
            at = next;
        } else {
            return Err(CodecError::Malformed("unexpected element in list"));
        }
    }
}

fn parse(buf: &[u8], pos: usize, at_top: bool) -> (r: Result<(Message, usize), CodecError>)
    requires
        pos <= buf@.len(),
    ensures
        match r {
            Ok(x) => pos <= x.1 <= buf@.len() && take_elements(buf@.skip(pos as int), at_top)
                == Ok::<(Elements, Seq<u8>), CodecError>((x.0@.entries, buf@.skip(x.1 as int))),
            Err(e) => take_elements(buf@.skip(pos as int), at_top) == Err::<
                (Elements, Seq<u8>),
                CodecError,
            >(e),
        },
    decreases buf@.len() - pos, 1int,
{
    let n: usize = buf.len();
    let mut at: usize = pos;
    let mut msg = Message::new();
    proof {
        if let Ok((more, rest)) = take_elements(buf@.skip(pos as int), at_top) {
            assert(msg@.entries + more =~= more);
        }
    }
    while at < n
        invariant
            n == buf@.len(),
            pos <= at <= n,
            match take_elements(buf@.skip(at as int), at_top) {
                Ok((more, rest)) => take_elements(buf@.skip(pos as int), at_top) == Ok::<
                    (Elements, Seq<u8>),
                    CodecError,
                >((msg@.entries + more, rest)),
                Err(e) => take_elements(buf@.skip(pos as int), at_top) == Err::<
                    (Elements, Seq<u8>),
                    CodecError,
                >(e),
            },
        decreases n - at,
    {
        let ghost b = buf@.skip(at as int);
        assert(b[0] == buf@[at as int]);
        if buf[at] == SECTION_END {
            if at_top {
                return Err(CodecError::Malformed("unexpected section end"));
            }
            assert(b.skip(1) =~= buf@.skip(at + 1));
            assert(msg@.entries + Seq::<(Seq<char>, ValueView)>::empty() =~= msg@.entries);
            return Ok((msg, at + 1));
        }
        let (name, value, next) = parse_element(buf, at)?;
        let ghost before = msg@.entries;
        let ghost seen = (name@, value@);
        msg.entries.push((name, value));
        proof {
            assert(msg@.entries =~= before.push(seen));
            if let Ok((more, rest)) = take_elements(buf@.skip(next as int), at_top) {
                assert(before + (seq![seen] + more) =~= msg@.entries + more);
            }
        }
        at = next;
    }
    assert(buf@.skip(at as int) =~= Seq::empty());
    if at_top {
        assert(msg@.entries + Seq::<(Seq<char>, ValueView)>::empty() =~= msg@.entries);
        Ok((msg, at))
    } else {
        Err(CodecError::Malformed("unterminated section"))
    }
}

fn parse_element(buf: &[u8], pos: usize) -> (r: Result<(String, Value, usize), CodecError>)
    requires
        pos < buf@.len(),
    ensures
        match r {
            Ok(x) => pos < x.2 <= buf@.len() && take_element(buf@.skip(pos as int)) == Ok::<
                ((Seq<char>, ValueView), Seq<u8>),
                CodecError,
            >(((x.0@, x.1@), buf@.skip(x.2 as int))),
            Err(e) => take_element(buf@.skip(pos as int)) == Err::<
                ((Seq<char>, ValueView), Seq<u8>),
                CodecError,
            >(e),
        },
    decreases buf@.len() - pos, 0int,
{
    let ghost b = buf@.skip(pos as int);
    let tag: u8 = buf[pos];
    assert(b[0] == tag);
    assert(b.skip(1) =~= buf@.skip(pos + 1));
    proof {
        lemma_take_element_shrinks(b);
    }
    if tag == SECTION_START {
        let (name, next) = read_name(buf, pos + 1)?;
        assert(buf@.skip(next as int).len() < b.len());
        let (sub, next) = parse(buf, next, false)?;
        Ok((name, Value::Section(sub), next))
    } else if tag == KEY_VALUE {
        let (name, next) = read_name(buf, pos + 1)?;
        let (value, next) = read_value(buf, next)?;
        assert(buf@.skip(next as int).len() < b.len());
        Ok((name, Value::Str(value), next))
    } else if tag == LIST_START {
        let (name, next) = read_name(buf, pos + 1)?;
        let (items, next) = read_items(buf, next)?;
        assert(buf@.skip(next as int).len() < b.len());
        Ok((name, Value::List(items), next))
    } else {
        Err(CodecError::Malformed("unknown element type"))
    }
}

proof fn lemma_element_of_prefix(
    entries: Seq<(Seq<char>, ValueView)>,
    last: (Seq<char>, ValueView),
    key: Seq<char>,
    i: int,
)
    requires
        0 <= i <= entries.len(),
    ensures
        element_from(entries.push(last), key, i) == (match element_from(entries, key, i) {
            Some(v) => Some(v),
            None => if last.0 == key {
                Some(last.1)
            } else {
                None
            },
        }),
    decreases entries.len() - i,
{
    let all = entries.push(last);
    if i < entries.len() {
        assert(all[i] == entries[i]);
        lemma_element_of_prefix(entries, last, key, i + 1);
    } else {
        assert(all[i] == last);
        assert(element_from(all, key, i + 1) is None);
    }
}

/// One more element leaves what the others say as it was: it is found under its own name, unless an
/// earlier one has that name.
pub proof fn law_first_of_a_name_counts(
    m: MessageView,
    key: Seq<char>,
    value: ValueView,
    asked: Seq<char>,
)
    ensures
        empty_message().get(asked) is None,
        m.get(asked) is Some ==> m.with(key, value).get(asked) == m.get(asked),
        m.get(asked) is None && key == asked ==> m.with(key, value).get(asked) == Some(value),
        m.get(asked) is None && key != asked ==> m.with(key, value).get(asked) is None,
{
    lemma_element_of_prefix(m.entries, (key, value), asked, 0);
}

/// What is written as a text, a list or a section under a name that is not taken is read back as
/// that, and as nothing else.
pub proof fn law_written_is_read(
    m: MessageView,
    key: Seq<char>,
    text: Seq<char>,
    items: Seq<Seq<char>>,
    sub: MessageView,
)
    requires
        m.get(key) is None,
    ensures
        m.with_str(key, text).get_str(key) == Some(text),
        m.with_str(key, text).get_list(key) is None,
        m.with_str(key, text).get_section(key) is None,
        m.with_list(key, items).get_list(key) == Some(items),
        m.with_list(key, items).get_str(key) is None,
        m.with_list(key, items).get_section(key) is None,
        m.with(key, ValueView::Section(sub)).get_section(key) == Some(sub),
        m.with(key, ValueView::Section(sub)).get_str(key) is None,
        m.with(key, ValueView::Section(sub)).get_list(key) is None,
{
    let bytes = Seq::new(items.len(), |i: int| encode_utf8(items[i]));
    law_first_of_a_name_counts(m, key, ValueView::Str(encode_utf8(text)), key);
    law_first_of_a_name_counts(m, key, ValueView::List(bytes), key);
    law_first_of_a_name_counts(m, key, ValueView::Section(sub), key);
    encode_utf8_valid_utf8(text);
    encode_utf8_decode_utf8(text);
    assert forall|i: int| 0 <= i < items.len() implies #[trigger] lossy(bytes[i]) == items[i] by {
        encode_utf8_valid_utf8(items[i]);
        encode_utf8_decode_utf8(items[i]);
    }
    assert(Seq::new(bytes.len(), |i: int| lossy(bytes[i])) =~= items);
}

proof fn lemma_sections_of_two(
    a: Seq<(Seq<char>, ValueView)>,
    b: Seq<(Seq<char>, ValueView)>,
    n: int,
)
    requires
        0 <= n <= b.len(),
    ensures
        sections_in(a + b, a.len() + n) == sections_in(a, a.len() as int) + sections_in(b, n),
    decreases n,
{
    if n > 0 {
        lemma_sections_of_two(a, b, n - 1);
        assert((a + b)[a.len() + n - 1] == b[n - 1]);
        assert(sections_in(a + b, a.len() + n) =~= sections_in(a, a.len() as int) + sections_in(
            b,
            n,
        ));
    } else {
        lemma_sections_of_start(a, b, a.len() as int);
        assert(sections_in(a, a.len() as int) + sections_in(b, 0) =~= sections_in(
            a,
            a.len() as int,
        ));
    }
}

proof fn lemma_sections_of_start(
    a: Seq<(Seq<char>, ValueView)>,
    b: Seq<(Seq<char>, ValueView)>,
    n: int,
)
    requires
        0 <= n <= a.len(),
    ensures
        sections_in(a + b, n) == sections_in(a, n),
    decreases n,
{
    if n > 0 {
        lemma_sections_of_start(a, b, n - 1);
        assert((a + b)[n - 1] == a[n - 1]);
    }
}

/// The sub-sections of a message are those of its elements that are sections, all of them, in their
/// order and under their names: each element adds itself or nothing.
pub proof fn law_sections_are_kept_in_order(
    a: MessageView,
    b: MessageView,
    key: Seq<char>,
    value: ValueView,
)
    ensures
        (MessageView { entries: a.entries + b.entries }).sections() == a.sections() + b.sections(),
        empty_message().with(key, value).sections() == (match value {
            ValueView::Section(m) => seq![(key, m)],
            _ => Seq::<(Seq<char>, MessageView)>::empty(),
        }),
{
    lemma_sections_of_two(a.entries, b.entries, b.entries.len() as int);
    let one = empty_message().with(key, value);
    assert(one.entries.len() == 1 && one.entries[0] == (key, value));
    reveal_with_fuel(sections_in, 3);
    assert(one.sections() =~= (match value {
        ValueView::Section(m) => seq![(key, m)],
        _ => Seq::<(Seq<char>, MessageView)>::empty(),
    }));
}

} // verus!
