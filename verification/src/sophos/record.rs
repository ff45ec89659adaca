//! Reading the fields of a JSON record.
//!
//! A record is an object, with its fields under their names, or an array, with its fields in
//! the order of their declaration. Fields that nobody asks for are ignored in an object and
//! refused in an array.

use crate::json::{Json, JsonView};
use crate::text::{same, views};
use vstd::prelude::*;

verus! {

/// The value of the first entry, from position `i` on, whose key is `key`.
pub open spec fn entry_from(
    entries: Seq<(Seq<char>, JsonView)>,
    key: Seq<char>,
    i: int,
) -> Option<JsonView>
    decreases entries.len() - i,
{
    if i < 0 || i >= entries.len() {
        None
    } else if entries[i].0 == key {
        Some(entries[i].1)
    } else {
        entry_from(entries, key, i + 1)
    }
}

/// Whether a value is a record of `most` fields, of which the first `least` cannot be left
/// out of an array.
pub open spec fn is_record(j: JsonView, least: int, most: int) -> bool {
    match j {
        JsonView::Object(_) => true,
        JsonView::Array(v) => least <= v.len() <= most,
        _ => false,
    }
}

/// The value given for a field: under its name, or at its position.
pub open spec fn field(j: JsonView, name: Seq<char>, index: int) -> Option<JsonView> {
    match j {
        JsonView::Object(entries) => entry_from(entries, name, 0),
        JsonView::Array(v) => if 0 <= index < v.len() {
            Some(v[index])
        } else {
            None
        },
        _ => None,
    }
}

/// A text field, empty by default.
pub open spec fn text_field(j: JsonView, name: Seq<char>, index: int) -> Option<Seq<char>> {
    match field(j, name, index) {
        None => Some(Seq::empty()),
        Some(JsonView::Text(s)) => Some(s),
        Some(_) => None,
    }
}

/// A switch, off by default.
pub open spec fn bool_field(j: JsonView, name: Seq<char>, index: int) -> Option<bool> {
    match field(j, name, index) {
        None => Some(false),
        Some(JsonView::Bool(b)) => Some(b),
        Some(_) => None,
    }
}

/// The texts of the first `n` items, when all of these are texts.
pub open spec fn item_texts(v: Seq<JsonView>, n: int) -> Option<Seq<Seq<char>>>
    decreases n,
{
    if n <= 0 {
        Some(Seq::empty())
    } else {
        match (item_texts(v, n - 1), v[n - 1]) {
            (Some(s), JsonView::Text(t)) => Some(s.push(t)),
            _ => None,
        }
    }
}

/// A list of texts, empty by default.
pub open spec fn texts_field(j: JsonView, name: Seq<char>, index: int) -> Option<Seq<Seq<char>>> {
    match field(j, name, index) {
        None => Some(Seq::empty()),
        Some(JsonView::Array(v)) => item_texts(v, v.len() as int),
        Some(_) => None,
    }
}

/// Whether a value is a record.
pub fn check_record(j: &Json, least: usize, most: usize) -> (r: bool)
    ensures
        r == is_record(j@, least as int, most as int),
{
    match j {
        Json::Object(_) => true,
        Json::Array(v) => {
            assert(j@->Array_0.len() == v@.len());
            least <= v.len() && v.len() <= most
        },
        _ => false,
    }
}

/// The value given for a field.
pub fn get_field<'a>(j: &'a Json, name: &str, index: usize) -> (r: Option<&'a Json>)
    ensures
        match r {
            Some(v) => field(j@, name@, index as int) == Some(v@),
            None => field(j@, name@, index as int) is None,
        },
{
    match j {
        Json::Object(entries) => {
            let ghost all = j@->Object_0;
            let mut i: usize = 0;
            while i < entries.len()
                invariant
                    i <= entries@.len(),
                    *j == Json::Object(*entries),
                    all == j@->Object_0,
                    field(j@, name@, index as int) == entry_from(all, name@, i as int),
                decreases entries@.len() - i,
            {
                assert(all[i as int] == (entries@[i as int].0@, entries@[i as int].1@));
                if same(entries[i].0.as_str(), name) {
                    return Some(&entries[i].1);
                }
                i = i + 1;
            }
            None
        },
        Json::Array(v) => {
            assert(j@->Array_0.len() == v@.len());
            if index < v.len() {
                assert(j@->Array_0[index as int] == v@[index as int]@);
                Some(&v[index])
            } else {
                None
            }
        },
        _ => None,
    }
}

/// A text field, empty by default.
pub fn get_text(j: &Json, name: &str, index: usize) -> (r: Option<String>)
    ensures
        match r {
            Some(s) => text_field(j@, name@, index as int) == Some(s@),
            None => text_field(j@, name@, index as int) is None,
        },
{
    match get_field(j, name, index) {
        None => Some(String::new()),
        Some(Json::Text(s)) => Some(s.clone()),
        Some(_) => None,
    }
}

/// A switch, off by default.
pub fn get_bool(j: &Json, name: &str, index: usize) -> (r: Option<bool>)
    ensures
        r == bool_field(j@, name@, index as int),
{
    match get_field(j, name, index) {
        None => Some(false),
        Some(Json::Bool(b)) => Some(*b),
        Some(_) => None,
    }
}

proof fn lemma_not_texts(v: Seq<JsonView>, n: int, m: int)
    requires
        0 <= n <= m,
        item_texts(v, n) is None,
    ensures
        item_texts(v, m) is None,
    decreases m - n,
{
    if n < m {
        lemma_not_texts(v, n, m - 1);
    }
}

/// A list of texts, empty by default.
pub fn get_texts(j: &Json, name: &str, index: usize) -> (r: Option<Vec<String>>)
    ensures
        match r {
            Some(s) => texts_field(j@, name@, index as int) == Some(views(s@)),
            None => texts_field(j@, name@, index as int) is None,
        },
{
    match get_field(j, name, index) {
        None => {
            let r: Vec<String> = Vec::new();
            assert(views(r@) =~= Seq::empty());
            Some(r)
        },
        Some(Json::Array(v)) => {
            let ghost all = field(j@, name@, index as int)->Some_0->Array_0;
            let mut out: Vec<String> = Vec::new();
            let mut i: usize = 0;
            assert(views(out@) =~= Seq::empty());
            while i < v.len()
                invariant
                    i <= v@.len(),
                    all.len() == v@.len(),
                    forall|k: int| 0 <= k < v@.len() ==> #[trigger] all[k] == v@[k]@,
                    texts_field(j@, name@, index as int) == item_texts(all, all.len() as int),
                    item_texts(all, i as int) == Some(views(out@)),
                decreases v@.len() - i,
            {
                assert(all[i as int] == v@[i as int]@);
                match &v[i] {
                    Json::Text(s) => {
                        let ghost before = out@;
                        out.push(s.clone());
                        assert(views(out@) =~= views(before).push(s@));
                    },
                    _ => {
                        proof {
                            lemma_not_texts(all, i + 1, all.len() as int);
                        }
                        return None;
                    },
                }
                i = i + 1;
            }
            Some(out)
        },
        Some(_) => None,
    }
}

/// Whether a value is that of the first entry with its key.
pub open spec fn is_first_value(
    entries: Seq<(Seq<char>, JsonView)>,
    key: Seq<char>,
    value: JsonView,
) -> bool {
    exists|i: int|
        0 <= i < entries.len() && #[trigger] entries[i] == (key, value) && forall|j: int|
            0 <= j < i ==> (#[trigger] entries[j]).0 != key
}

proof fn lemma_entry_from(entries: Seq<(Seq<char>, JsonView)>, key: Seq<char>, i: int)
    requires
        0 <= i <= entries.len(),
        forall|j: int| 0 <= j < i ==> (#[trigger] entries[j]).0 != key,
    ensures
        entry_from(entries, key, i) matches Some(v) ==> is_first_value(entries, key, v),
        entry_from(entries, key, i) is None ==> forall|j: int|
            0 <= j < entries.len() ==> (#[trigger] entries[j]).0 != key,
    decreases entries.len() - i,
{
    if i < entries.len() {
        if entries[i].0 == key {
            assert(entries[i] == (key, entries[i].1));
        } else {
            lemma_entry_from(entries, key, i + 1);
        }
    }
}

/// The field of an object is what stands under its name, and that of a list what stands at its place.
pub proof fn law_field_is_found_by_name(j: JsonView, name: Seq<char>, index: int)
    ensures
        j matches JsonView::Object(e) ==> match field(j, name, index) {
            Some(v) => is_first_value(e, name, v),
            None => forall|k: int| 0 <= k < e.len() ==> (#[trigger] e[k]).0 != name,
        },
        j matches JsonView::Array(v) ==> (0 <= index < v.len() ==> field(j, name, index) == Some(
            v[index],
        )),
        j matches JsonView::Array(v) ==> (!(0 <= index < v.len()) ==> field(j, name, index) is None),
{
    if let JsonView::Object(e) = j {
        lemma_entry_from(e, name, 0);
    }
}

} // verus!
