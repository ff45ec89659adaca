//! The ini dialect that NCP profiles and `.tgb` exports are written in.
//!
//! A line is blank, a comment (`;` or `#`), a section header `[name]`, or an entry
//! `key = value` of the section above it. White space around names, keys and values does not
//! count. Anything else is an error: a half-read profile would silently negotiate defaults.

use crate::text::{
    begins, chars_of, decimal, format_u64, index_of, is_alnum, is_space, lemma_index_of,
    lemma_trimmed_stays, same, split, split_on, split_once, starts_with, string_of, trim, trimmed,
    views,
};
use vstd::prelude::*;
use vstd::utf8::encode_utf8;

verus! {

/// The largest input, in bytes, that is read.
pub const MAX_INPUT_LEN: usize = 1_048_576;

/// A section: its name and its entries in the order of the file.
pub struct Section {
    pub name: String,
    pub entries: Vec<(String, String)>,
}

/// The content of a [`Section`].
pub struct SectionView {
    pub name: Seq<char>,
    pub entries: Seq<(Seq<char>, Seq<char>)>,
}

/// The texts of a list of entries.
pub open spec fn entry_views(v: Seq<(String, String)>) -> Seq<(Seq<char>, Seq<char>)> {
    Seq::new(v.len(), |i: int| (v[i].0@, v[i].1@))
}

impl View for Section {
    type V = SectionView;

    open spec fn view(&self) -> SectionView {
        SectionView { name: self.name@, entries: entry_views(self.entries@) }
    }
}

/// The sections of a file, in order.
pub struct Document {
    pub sections: Vec<Section>,
}

/// The contents of a list of sections.
pub open spec fn section_views(v: Seq<Section>) -> Seq<SectionView> {
    Seq::new(v.len(), |i: int| v[i]@)
}

impl View for Document {
    type V = Seq<SectionView>;

    open spec fn view(&self) -> Seq<SectionView> {
        section_views(self.sections@)
    }
}

/// Why a text could not be read. Lines count from 1.
#[derive(Debug, Clone, Copy, PartialEq, Eq, Structural)]
pub enum ParseError {
    TooLarge,
    OutsideSection { line: usize },
    Malformed { line: usize },
}

impl ParseError {
    /// The text of the error.
    pub open spec fn text(self) -> Seq<char> {
        match self {
            ParseError::TooLarge => "input exceeds "@ + decimal(MAX_INPUT_LEN as nat) + " bytes"@,
            ParseError::OutsideSection { line } => "line "@ + decimal(line as nat)
                + ": entry outside any section"@,
            ParseError::Malformed { line } => "line "@ + decimal(line as nat)
                + ": neither a section nor an entry"@,
        }
    }

    /// What to tell the user.
    pub fn message(&self) -> (r: String)
        ensures
            r@ == self.text(),
    {
        match self {
            ParseError::TooLarge => {
                let mut s = "input exceeds ".to_owned();
                s.append(format_u64(MAX_INPUT_LEN as u64).as_str());
                s.append(" bytes");
                s
            },
            ParseError::OutsideSection { line } => {
                let mut s = "line ".to_owned();
                s.append(format_u64(*line as u64).as_str());
                s.append(": entry outside any section");
                s
            },
            ParseError::Malformed { line } => {
                let mut s = "line ".to_owned();
                s.append(format_u64(*line as u64).as_str());
                s.append(": neither a section nor an entry");
                s
            },
        }
    }
}

/// What line number `no` adds to the sections read so far.
pub open spec fn with_line(acc: Seq<SectionView>, line: Seq<char>, no: int) -> Result<
    Seq<SectionView>,
    ParseError,
> {
    let t = trimmed(line);
    let eq = index_of(t, '=');
    if t.len() == 0 || t[0] == ';' || t[0] == '#' {
        Ok(acc)
    } else if t.len() >= 2 && t[0] == '[' && t.last() == ']' {
        Ok(
            acc.push(
                SectionView {
                    name: trimmed(t.subrange(1, t.len() - 1)),
                    entries: Seq::empty(),
                },
            ),
        )
    } else if eq >= t.len() {
        Err(ParseError::Malformed { line: no as usize })
    } else if acc.len() == 0 {
        Err(ParseError::OutsideSection { line: no as usize })
    } else {
        Ok(
            acc.drop_last().push(
                SectionView {
                    name: acc.last().name,
                    entries: acc.last().entries.push(
                        (trimmed(t.take(eq)), trimmed(t.skip(eq + 1))),
                    ),
                },
            ),
        )
    }
}

/// The sections that the first `n` lines make.
pub open spec fn read_lines(lines: Seq<Seq<char>>, n: int) -> Result<Seq<SectionView>, ParseError>
    decreases n,
{
    if n <= 0 {
        Ok(Seq::empty())
    } else {
        match read_lines(lines, n - 1) {
            Ok(acc) => with_line(acc, lines[n - 1], n),
            Err(e) => Err(e),
        }
    }
}

/// The sections that a text makes.
pub open spec fn document(text: Seq<char>) -> Result<Seq<SectionView>, ParseError> {
    let lines = split_on(text, '\n');
    if encode_utf8(text).len() > MAX_INPUT_LEN {
        Err(ParseError::TooLarge)
    } else {
        read_lines(lines, lines.len() as int)
    }
}

/// An error on a line is the error of the whole text.
proof fn lemma_error_stays(lines: Seq<Seq<char>>, n: int, m: int)
    requires
        n <= m,
        read_lines(lines, n) is Err,
    ensures
        read_lines(lines, m) == read_lines(lines, n),
    decreases m - n,
{
    if n < m {
        lemma_error_stays(lines, n, m - 1);
    }
}

/// The value of the first entry, from position `i` on, whose key is `key`.
pub open spec fn lookup_from(
    entries: Seq<(Seq<char>, Seq<char>)>,
    key: Seq<char>,
    i: int,
) -> Option<Seq<char>>
    decreases entries.len() - i,
{
    if i < 0 || i >= entries.len() {
        None
    } else if entries[i].0 == key {
        Some(entries[i].1)
    } else {
        lookup_from(entries, key, i + 1)
    }
}

/// The first section, from position `i` on, with the given name.
pub open spec fn section_from(doc: Seq<SectionView>, name: Seq<char>, i: int) -> Option<SectionView>
    decreases doc.len() - i,
{
    if i < 0 || i >= doc.len() {
        None
    } else if doc[i].name == name {
        Some(doc[i])
    } else {
        section_from(doc, name, i + 1)
    }
}

/// The first section with the given name.
pub open spec fn find_section(doc: Seq<SectionView>, name: Seq<char>) -> Option<SectionView> {
    section_from(doc, name, 0)
}

/// Those of the first `n` sections whose name begins with `prefix`.
pub open spec fn prefixed(doc: Seq<SectionView>, prefix: Seq<char>, n: int) -> Seq<SectionView>
    decreases n,
{
    if n <= 0 {
        Seq::empty()
    } else if begins(doc[n - 1].name, prefix) {
        prefixed(doc, prefix, n - 1).push(doc[n - 1])
    } else {
        prefixed(doc, prefix, n - 1)
    }
}

impl SectionView {
    /// The value of the first entry with the given key.
    pub open spec fn get(self, key: Seq<char>) -> Option<Seq<char>> {
        lookup_from(self.entries, key, 0)
    }
}

impl Section {
    /// The value of the first entry with the given key.
    pub fn get(&self, key: &str) -> (r: Option<&str>)
        ensures
            match r {
                Some(v) => self@.get(key@) == Some(v@),
                None => self@.get(key@) is None,
            },
    {
        let mut i: usize = 0;
        while i < self.entries.len()
            invariant
                i <= self.entries@.len(),
                self@.get(key@) == lookup_from(self@.entries, key@, i as int),
            decreases self.entries@.len() - i,
        {
            if same(self.entries[i].0.as_str(), key) {
                return Some(self.entries[i].1.as_str());
            }
            i = i + 1;
        }
        None
    }
}

impl Document {
    /// The first section with the given name.
    pub fn section(&self, name: &str) -> (r: Option<&Section>)
        ensures
            match r {
                Some(s) => find_section(self@, name@) == Some(s@),
                None => find_section(self@, name@) is None,
            },
    {
        let mut i: usize = 0;
        while i < self.sections.len()
            invariant
                i <= self.sections@.len(),
                find_section(self@, name@) == section_from(self@, name@, i as int),
            decreases self.sections@.len() - i,
        {
            if same(self.sections[i].name.as_str(), name) {
                return Some(&self.sections[i]);
            }
            i = i + 1;
        }
        None
    }

    /// The sections whose name begins with `prefix`, in order.
    pub fn sections_with_prefix(&self, prefix: &str) -> (r: Vec<&Section>)
        ensures
            Seq::new(r@.len(), |i: int| r@[i]@) == prefixed(self@, prefix@, self@.len() as int),
    {
        let mut out: Vec<&Section> = Vec::new();
        let mut i: usize = 0;
        assert(Seq::new(out@.len(), |k: int| out@[k]@) =~= prefixed(self@, prefix@, 0));
        while i < self.sections.len()
            invariant
                i <= self.sections@.len(),
                Seq::new(out@.len(), |k: int| out@[k]@) == prefixed(self@, prefix@, i as int),
            decreases self.sections@.len() - i,
        {
            if starts_with(self.sections[i].name.as_str(), prefix) {
                let ghost before = out@;
                out.push(&self.sections[i]);
                assert(Seq::new(out@.len(), |k: int| out@[k]@) =~= Seq::new(
                    before.len(),
                    |k: int| before[k]@,
                ).push(self@[i as int]));
            }
            i = i + 1;
        }
        out
    }
}

/// Reads a text into its sections.
pub fn parse(text: &str) -> (r: Result<Document, ParseError>)
    ensures
        match r {
            Ok(doc) => document(text@) == Ok::<Seq<SectionView>, ParseError>(doc@),
            Err(e) => document(text@) == Err::<Seq<SectionView>, ParseError>(e),
        },
{
    if text.as_bytes().len() > MAX_INPUT_LEN {
        return Err(ParseError::TooLarge);
    }
    let lines = split(text, '\n');
    let ghost all = split_on(text@, '\n');
    let mut doc = Document { sections: Vec::new() };
    let mut i: usize = 0;
    assert(doc@ =~= Seq::<SectionView>::empty());
    while i < lines.len()
        invariant
            i <= lines@.len(),
            all == views(lines@),
            all == split_on(text@, '\n'),
            encode_utf8(text@).len() <= MAX_INPUT_LEN,
            read_lines(all, i as int) == Ok::<Seq<SectionView>, ParseError>(doc@),
        decreases lines@.len() - i,
    {
        assert(all[i as int] == lines@[i as int]@);
        let before = read_line(&mut doc, lines[i].as_str(), i + 1);
        if let Err(e) = before {
            proof {
                lemma_error_stays(all, i + 1, all.len() as int);
            }
            return Err(e);
        }
        i = i + 1;
    }
    Ok(doc)
}

fn read_line(doc: &mut Document, line: &str, no: usize) -> (r: Result<(), ParseError>)
    ensures
        match r {
            Ok(_) => with_line(old(doc)@, line@, no as int) == Ok::<Seq<SectionView>, ParseError>(
                final(doc)@,
            ),
            Err(e) => with_line(old(doc)@, line@, no as int) == Err::<Seq<SectionView>, ParseError>(
                e,
            ),
        },
{
    let t = trim(line);
    let v = chars_of(t.as_str());
    let n: usize = v.len();
    if n == 0 || v[0] == ';' || v[0] == '#' {
        return Ok(());
    }
    if n >= 2 && v[0] == '[' && v[n - 1] == ']' {
        let inner = string_of(&v, 1, n - 1);
        let section = Section { name: trim(inner.as_str()), entries: Vec::new() };
        assert(section@.entries =~= Seq::empty());
        doc.sections.push(section);
        assert(doc@ =~= old(doc)@.push(section@));
        return Ok(());
    }
    match split_once(t.as_str(), '=') {
        None => Err(ParseError::Malformed { line: no }),
        Some((key, value)) => {
            let last: Option<Section> = doc.sections.pop();
            match last {
                None => {
                    assert(old(doc)@.len() == 0);
                    Err(ParseError::OutsideSection { line: no })
                },
                Some(mut section) => {
                    let ghost before = section@;
                    assert(before == old(doc)@.last());
                    assert(doc@ =~= old(doc)@.drop_last());
                    section.entries.push((trim(key.as_str()), trim(value.as_str())));
                    assert(section@.entries =~= before.entries.push(
                        (
                            trimmed(t@.take(index_of(t@, '='))),
                            trimmed(t@.skip(index_of(t@, '=') + 1)),
                        ),
                    ));
                    let ghost rest = doc@;
                    doc.sections.push(section);
                    assert(doc@ =~= rest.push(section@));
                    Ok(())
                },
            }
        },
    }
}

/// Whether a section is the first of its name in a file.
pub open spec fn is_first_section(doc: Seq<SectionView>, name: Seq<char>, s: SectionView) -> bool {
    exists|i: int|
        0 <= i < doc.len() && #[trigger] doc[i] == s && s.name == name && forall|j: int|
            0 <= j < i ==> (#[trigger] doc[j]).name != name
}

/// Whether a value is that of the first entry with its key.
pub open spec fn is_first_entry(s: SectionView, key: Seq<char>, value: Seq<char>) -> bool {
    exists|i: int|
        0 <= i < s.entries.len() && #[trigger] s.entries[i] == (key, value) && forall|j: int|
            0 <= j < i ==> (#[trigger] s.entries[j]).0 != key
}

proof fn lemma_found_section(doc: Seq<SectionView>, name: Seq<char>, i: int)
    requires
        0 <= i <= doc.len(),
        forall|j: int| 0 <= j < i ==> (#[trigger] doc[j]).name != name,
    ensures
        section_from(doc, name, i) matches Some(s) ==> is_first_section(doc, name, s),
        section_from(doc, name, i) is None ==> forall|j: int|
            0 <= j < doc.len() ==> (#[trigger] doc[j]).name != name,
    decreases doc.len() - i,
{
    if i < doc.len() && doc[i].name != name {
        lemma_found_section(doc, name, i + 1);
    }
}

proof fn lemma_found_entry(s: SectionView, key: Seq<char>, i: int)
    requires
        0 <= i <= s.entries.len(),
        forall|j: int| 0 <= j < i ==> (#[trigger] s.entries[j]).0 != key,
    ensures
        lookup_from(s.entries, key, i) matches Some(v) ==> is_first_entry(s, key, v),
        lookup_from(s.entries, key, i) is None ==> forall|j: int|
            0 <= j < s.entries.len() ==> (#[trigger] s.entries[j]).0 != key,
    decreases s.entries.len() - i,
{
    if i < s.entries.len() {
        if s.entries[i].0 != key {
            lemma_found_entry(s, key, i + 1);
        } else {
            assert(s.entries[i] == (key, s.entries[i].1));
        }
    }
}

/// A section is found by its name and a value by its key, the first of several; what is not there is
/// not found.
pub proof fn law_first_of_a_name_is_found(
    doc: Seq<SectionView>,
    name: Seq<char>,
    s: SectionView,
    key: Seq<char>,
)
    ensures
        find_section(doc, name) matches Some(t) ==> is_first_section(doc, name, t),
        find_section(doc, name) is None ==> forall|j: int|
            0 <= j < doc.len() ==> (#[trigger] doc[j]).name != name,
        s.get(key) matches Some(v) ==> is_first_entry(s, key, v),
        s.get(key) is None ==> forall|j: int|
            0 <= j < s.entries.len() ==> (#[trigger] s.entries[j]).0 != key,
{
    lemma_found_section(doc, name, 0);
    lemma_found_entry(s, key, 0);
}

/// What a line adds: a name in brackets opens a section without entries, a key and a value with an
/// equals sign between them are one more entry of the section that is open, and blank lines and
/// comments add nothing. What was read before stays as it was.
pub proof fn law_line_adds_what_it_says(
    acc: Seq<SectionView>,
    no: int,
    name: Seq<char>,
    key: Seq<char>,
    value: Seq<char>,
)
    requires
        name.len() > 0 ==> !is_space(name[0]) && !is_space(name.last()),
        key.len() > 0 && is_alnum(key[0]) && !is_space(key.last()),
        forall|i: int| 0 <= i < key.len() ==> key[i] != '=',
        value.len() > 0 && !is_space(value[0]) && !is_space(value.last()),
    ensures
        with_line(acc, "["@ + name + "]"@, no) == Ok::<Seq<SectionView>, ParseError>(
            acc.push(SectionView { name, entries: Seq::empty() }),
        ),
        acc.len() > 0 ==> (with_line(acc, key + "="@ + value, no) matches Ok(now) && now.len()
            == acc.len() && now.drop_last() == acc.drop_last() && now.last().name == acc.last().name
            && now.last().entries == acc.last().entries.push((key, value))),
        with_line(acc, Seq::empty(), no) == Ok::<Seq<SectionView>, ParseError>(acc),
        with_line(acc, ";"@ + value, no) == Ok::<Seq<SectionView>, ParseError>(acc),
        with_line(acc, "#"@ + value, no) == Ok::<Seq<SectionView>, ParseError>(acc),
{
    reveal_strlit("[");
    reveal_strlit("]");
    reveal_strlit("=");
    reveal_strlit(";");
    reveal_strlit("#");
    let header = "["@ + name + "]"@;
    assert(header[0] == '[' && header.last() == ']');
    lemma_trimmed_stays(header);
    assert(header.subrange(1, header.len() - 1) =~= name);
    lemma_trimmed_stays(name);
    let line = key + "="@ + value;
    assert(line[0] == key[0] && line.last() == value.last());
    lemma_trimmed_stays(line);
    let at = key.len() as int;
    assert forall|k: int| 0 <= k < at implies line[k] != '=' by {
        assert(line[k] == key[k]);
    }
    assert(line[at] == '=');
    lemma_index_of(line, '=', at);
    assert(line.take(at) =~= key);
    assert(line.skip(at + 1) =~= value);
    lemma_trimmed_stays(key);
    lemma_trimmed_stays(value);
    if acc.len() > 0 {
        let now = with_line(acc, line, no)->Ok_0;
        assert(now.drop_last() =~= acc.drop_last());
    }
    let a = ";"@ + value;
    let b = "#"@ + value;
    assert(a[0] == ';' && a.last() == value.last());
    assert(b[0] == '#' && b.last() == value.last());
    lemma_trimmed_stays(a);
    lemma_trimmed_stays(b);
    lemma_trimmed_stays(Seq::empty());
}

proof fn lemma_prefixed_start(a: Seq<SectionView>, b: Seq<SectionView>, prefix: Seq<char>, n: int)
    requires
        0 <= n <= a.len(),
    ensures
        prefixed(a + b, prefix, n) == prefixed(a, prefix, n),
    decreases n,
{
    if n > 0 {
        lemma_prefixed_start(a, b, prefix, n - 1);
        assert((a + b)[n - 1] == a[n - 1]);
    }
}

proof fn lemma_prefixed_two(a: Seq<SectionView>, b: Seq<SectionView>, prefix: Seq<char>, n: int)
    requires
        0 <= n <= b.len(),
    ensures
        prefixed(a + b, prefix, a.len() + n) == prefixed(a, prefix, a.len() as int) + prefixed(
            b,
            prefix,
            n,
        ),
    decreases n,
{
    let whole = prefixed(a + b, prefix, a.len() + n);
    if n > 0 {
        lemma_prefixed_two(a, b, prefix, n - 1);
        assert((a + b)[a.len() + n - 1] == b[n - 1]);
        assert(whole =~= prefixed(a, prefix, a.len() as int) + prefixed(b, prefix, n));
    } else {
        lemma_prefixed_start(a, b, prefix, a.len() as int);
        assert(whole =~= prefixed(a, prefix, a.len() as int) + prefixed(b, prefix, 0));
    }
}

/// The sections with a prefix are all of those whose name begins with it, in their order: each
/// section adds itself or nothing.
pub proof fn law_prefix_selects_in_order(
    a: Seq<SectionView>,
    b: Seq<SectionView>,
    s: SectionView,
    prefix: Seq<char>,
)
    ensures
        prefixed(a + b, prefix, (a + b).len() as int) == prefixed(a, prefix, a.len() as int)
            + prefixed(b, prefix, b.len() as int),
        begins(s.name, prefix) ==> prefixed(seq![s], prefix, 1) == seq![s],
        !begins(s.name, prefix) ==> prefixed(seq![s], prefix, 1) == Seq::<SectionView>::empty(),
{
    lemma_prefixed_two(a, b, prefix, b.len() as int);
    reveal_with_fuel(prefixed, 3);
    if begins(s.name, prefix) {
        assert(prefixed(seq![s], prefix, 1) =~= seq![s]);
    }
}

proof fn lemma_prefixed_members(doc: Seq<SectionView>, prefix: Seq<char>, n: int)
    requires
        0 <= n <= doc.len(),
    ensures
        forall|k: int|
            0 <= k < prefixed(doc, prefix, n).len() ==> doc.contains(
                #[trigger] prefixed(doc, prefix, n)[k],
            ) && begins(prefixed(doc, prefix, n)[k].name, prefix),
        forall|i: int|
            0 <= i < n && begins((#[trigger] doc[i]).name, prefix) ==> prefixed(
                doc,
                prefix,
                n,
            ).contains(doc[i]),
        (exists|i: int| 0 <= i < n && begins((#[trigger] doc[i]).name, prefix)) ==> prefixed(
            doc,
            prefix,
            n,
        ).len() > 0 && exists|i: int|
            0 <= i < n && #[trigger] doc[i] == prefixed(doc, prefix, n)[0] && forall|j: int|
                0 <= j < i ==> !begins((#[trigger] doc[j]).name, prefix),
    decreases n,
{
    if n > 0 {
        lemma_prefixed_members(doc, prefix, n - 1);
        let before = prefixed(doc, prefix, n - 1);
        let now = prefixed(doc, prefix, n);
        assert forall|k: int| 0 <= k < now.len() implies doc.contains(#[trigger] now[k]) && begins(
            now[k].name,
            prefix,
        ) by {
            if k < before.len() {
                assert(now[k] == before[k]);
            } else {
                assert(now[k] == doc[n - 1]);
            }
        }
        assert forall|i: int| 0 <= i < n && begins((#[trigger] doc[i]).name, prefix) implies now.contains(
            doc[i],
        ) by {
            if i < n - 1 {
                let k = choose|k: int| 0 <= k < before.len() && before[k] == doc[i];
                assert(now[k] == doc[i]);
            } else {
                assert(now[before.len() as int] == doc[i]);
            }
        }
        if exists|i: int| 0 <= i < n && begins((#[trigger] doc[i]).name, prefix) {
            if before.len() > 0 {
                assert(doc.contains(before[0]));
                if exists|i: int| 0 <= i < n - 1 && begins((#[trigger] doc[i]).name, prefix) {
                    let i = choose|i: int|
                        0 <= i < n - 1 && #[trigger] doc[i] == before[0] && forall|j: int|
                            0 <= j < i ==> !begins((#[trigger] doc[j]).name, prefix);
                    assert(now[0] == doc[i]);
                } else {
                    lemma_prefixed_none(doc, prefix, n - 1);
                }
            } else {
                assert forall|j: int| 0 <= j < n - 1 implies !begins(
                    (#[trigger] doc[j]).name,
                    prefix,
                ) by {
                    if begins(doc[j].name, prefix) {
                        assert(before.contains(doc[j]));
                    }
                }
                assert(begins(doc[n - 1].name, prefix));
                assert(now[0] == doc[n - 1]);
            }
        }
    }
}

proof fn lemma_prefixed_none(doc: Seq<SectionView>, prefix: Seq<char>, n: int)
    requires
        0 <= n <= doc.len(),
        forall|i: int| 0 <= i < n ==> !begins((#[trigger] doc[i]).name, prefix),
    ensures
        prefixed(doc, prefix, n).len() == 0,
    decreases n,
{
    if n > 0 {
        lemma_prefixed_none(doc, prefix, n - 1);
    }
}

/// The first section with a prefix is the first of the file whose name begins with it; without any,
/// there is none.
pub proof fn law_first_with_a_prefix(doc: Seq<SectionView>, prefix: Seq<char>)
    ensures
        ({
            let v = prefixed(doc, prefix, doc.len() as int);
            &&& v.len() > 0 ==> exists|i: int|
                0 <= i < doc.len() && #[trigger] doc[i] == v[0] && begins(doc[i].name, prefix)
                    && forall|j: int| 0 <= j < i ==> !begins((#[trigger] doc[j]).name, prefix)
            &&& v.len() == 0 ==> forall|i: int|
                0 <= i < doc.len() ==> !begins((#[trigger] doc[i]).name, prefix)
            &&& forall|k: int|
                0 <= k < v.len() ==> doc.contains(#[trigger] v[k]) && begins(v[k].name, prefix)
        }),
{
    let n = doc.len() as int;
    let v = prefixed(doc, prefix, n);
    lemma_prefixed_members(doc, prefix, n);
    if v.len() > 0 {
        assert(doc.contains(v[0]) && begins(v[0].name, prefix));
        let k = choose|k: int| 0 <= k < doc.len() && doc[k] == v[0];
        assert(begins(doc[k].name, prefix));
        let i = choose|i: int|
            0 <= i < n && #[trigger] doc[i] == v[0] && forall|j: int|
                0 <= j < i ==> !begins((#[trigger] doc[j]).name, prefix);
        assert(doc[i] == v[0]);
    } else {
        assert forall|i: int| 0 <= i < doc.len() implies !begins((#[trigger] doc[i]).name, prefix) by {
            if begins(doc[i].name, prefix) {
                assert(v.contains(doc[i]));
            }
        }
    }
}

/// An error is told with the line that it is on, and an input that is too large with the limit.
pub proof fn law_error_names_its_line(line: usize)
    ensures
        (ParseError::OutsideSection { line }).text() == "line "@ + decimal(line as nat)
            + ": entry outside any section"@,
        (ParseError::Malformed { line }).text() == "line "@ + decimal(line as nat)
            + ": neither a section nor an entry"@,
        ParseError::TooLarge.text() == "input exceeds "@ + decimal(MAX_INPUT_LEN as nat)
            + " bytes"@,
{
}

} // verus!
