//! Text handling: what trimming, splitting, searching and number conversion mean on a
//! sequence of characters, and executable functions that compute exactly that.

use vstd::prelude::*;
use vstd::utf8::{decode_utf8, encode_utf8, encode_utf8_decode_utf8, valid_utf8};

verus! {

/// `String::push`: appends the given character to the end of the string.
pub assume_specification[ String::push ](s: &mut String, c: char)
    ensures
        final(s)@ == old(s)@.push(c),
;

/// How `Debug` prints a text: in double quotes, with `char::escape_debug` applied inside.
pub uninterp spec fn debug_quoted(s: Seq<char>) -> Seq<char>;

/// Formats a text with `{:?}`. The result is a function of the text alone; what it is,
/// `str`'s `Debug` decides.
#[verifier::external_body]
pub(crate) fn quote_debug(s: &str) -> (r: String)
    ensures
        r@ == debug_quoted(s@),
{
    format!("{s:?}")
}

/// `std::str::from_utf8`: the text that the bytes encode, when they are valid UTF-8.
#[verifier::external_body]
pub(crate) fn utf8_text(bytes: &[u8]) -> (r: Option<&str>)
    ensures
        match r {
            Some(s) => valid_utf8(bytes@) && s@ == decode_utf8(bytes@),
            None => !valid_utf8(bytes@),
        },
{
    std::str::from_utf8(bytes).ok()
}

/// What `String::from_utf8_lossy` makes of bytes that are not valid UTF-8: the text with
/// U+FFFD for what cannot be decoded.
pub uninterp spec fn utf8_replaced(bytes: Seq<u8>) -> Seq<char>;

/// The text of bytes that are meant to be UTF-8.
pub open spec fn lossy(bytes: Seq<u8>) -> Seq<char> {
    if valid_utf8(bytes) {
        decode_utf8(bytes)
    } else {
        utf8_replaced(bytes)
    }
}

/// `String::from_utf8_lossy`: the text that the bytes encode when they are valid UTF-8; else a
/// text that is a function of the bytes.
#[verifier::external_body]
pub(crate) fn lossy_text(bytes: &[u8]) -> (r: String)
    ensures
        r@ == (if valid_utf8(bytes@) {
            decode_utf8(bytes@)
        } else {
            utf8_replaced(bytes@)
        }),
{
    String::from_utf8_lossy(bytes).into_owned()
}

/// The characters with the Unicode property `White_Space`.
pub open spec fn is_space(c: char) -> bool {
    let n = c as u32;
    ||| 9 <= n <= 13
    ||| n == 0x20
    ||| n == 0x85
    ||| n == 0xA0
    ||| n == 0x1680
    ||| 0x2000 <= n <= 0x200A
    ||| n == 0x2028
    ||| n == 0x2029
    ||| n == 0x202F
    ||| n == 0x205F
    ||| n == 0x3000
}

/// Whether a character counts as white space.
pub fn is_whitespace(c: char) -> (r: bool)
    ensures
        r == is_space(c),
{
    let n: u32 = c as u32;
    (9 <= n && n <= 13) || n == 0x20 || n == 0x85 || n == 0xA0 || n == 0x1680
        || (0x2000 <= n && n <= 0x200A) || n == 0x2028 || n == 0x2029 || n == 0x202F
        || n == 0x205F || n == 0x3000
}

/// `s` without leading white space.
pub open spec fn trimmed_start(s: Seq<char>) -> Seq<char>
    decreases s.len(),
{
    if s.len() > 0 && is_space(s[0]) {
        trimmed_start(s.skip(1))
    } else {
        s
    }
}

/// `s` without trailing white space.
pub open spec fn trimmed_end(s: Seq<char>) -> Seq<char>
    decreases s.len(),
{
    if s.len() > 0 && is_space(s.last()) {
        trimmed_end(s.drop_last())
    } else {
        s
    }
}

/// `s` without white space at either end.
pub open spec fn trimmed(s: Seq<char>) -> Seq<char> {
    trimmed_end(trimmed_start(s))
}

/// The characters of a string.
pub fn chars_of(s: &str) -> (v: Vec<char>)
    ensures
        v@ == s@,
{
    let mut v: Vec<char> = Vec::new();
    for c in it: s.chars()
        invariant
            it.seq() == s@,
            v@ == s@.take(it.index() as int),
    {
        assert(s@.take(it.index() as int).push(c) =~= s@.take(it.index() as int + 1));
        v.push(c);
    }
    assert(s@.take(s@.len() as int) =~= s@);
    v
}

/// The string made of the characters `v[from..to]`.
pub fn string_of(v: &Vec<char>, from: usize, to: usize) -> (s: String)
    requires
        from <= to <= v@.len(),
    ensures
        s@ == v@.subrange(from as int, to as int),
{
    let mut s = String::new();
    let mut i: usize = from;
    while i < to
        invariant
            from <= i <= to <= v@.len(),
            s@ == v@.subrange(from as int, i as int),
        decreases to - i,
    {
        s.push(v[i]);
        assert(v@.subrange(from as int, i as int).push(v@[i as int]) =~= v@.subrange(
            from as int,
            i + 1,
        ));
        i = i + 1;
    }
    s
}

/// Whether two strings hold the same characters.
pub fn same(a: &str, b: &str) -> (r: bool)
    ensures
        r == (a@ == b@),
{
    let x = a.as_bytes();
    let y = b.as_bytes();
    proof {
        encode_utf8_decode_utf8(a@);
        encode_utf8_decode_utf8(b@);
    }
    if x.len() != y.len() {
        return false;
    }
    let mut i: usize = 0;
    while i < x.len()
        invariant
            x@ == encode_utf8(a@),
            y@ == encode_utf8(b@),
            x@.len() == y@.len(),
            i <= x@.len(),
            forall|k: int| 0 <= k < i ==> x@[k] == y@[k],
        decreases x@.len() - i,
    {
        if x[i] != y[i] {
            return false;
        }
        i = i + 1;
    }
    assert(x@ =~= y@);
    true
}

/// Where `trimmed_start` begins.
proof fn lemma_trimmed_start(s: Seq<char>, i: int)
    requires
        0 <= i <= s.len(),
        forall|k: int| 0 <= k < i ==> is_space(s[k]),
        i == s.len() || !is_space(s[i]),
    ensures
        trimmed_start(s) == s.skip(i),
    decreases i,
{
    if i > 0 {
        assert(is_space(s[0]));
        let t = s.skip(1);
        assert forall|k: int| 0 <= k < i - 1 implies is_space(t[k]) by {
            assert(t[k] == s[k + 1]);
        }
        lemma_trimmed_start(t, i - 1);
        assert(t.skip(i - 1) =~= s.skip(i));
    } else {
        assert(s.skip(0) =~= s);
    }
}

/// Where `trimmed_end` ends.
proof fn lemma_trimmed_end(s: Seq<char>, j: int)
    requires
        0 <= j <= s.len(),
        forall|k: int| j <= k < s.len() ==> is_space(s[k]),
        j == 0 || !is_space(s[j - 1]),
    ensures
        trimmed_end(s) == s.take(j),
    decreases s.len() - j,
{
    if j < s.len() {
        assert(is_space(s[s.len() - 1]));
        let t = s.drop_last();
        assert forall|k: int| j <= k < t.len() implies is_space(t[k]) by {
            assert(t[k] == s[k]);
        }
        lemma_trimmed_end(t, j);
        assert(t.take(j) =~= s.take(j));
    } else {
        assert(s.take(j) =~= s);
    }
}

/// The text without white space at either end.
pub fn trim(s: &str) -> (r: String)
    ensures
        r@ == trimmed(s@),
{
    let v = chars_of(s);
    let n: usize = v.len();
    let mut i: usize = 0;
    while i < n && is_whitespace(v[i])
        invariant
            n == v@.len(),
            i <= n,
            forall|k: int| 0 <= k < i ==> is_space(v@[k]),
        decreases n - i,
    {
        i = i + 1;
    }
    let mut j: usize = n;
    while j > i && is_whitespace(v[j - 1])
        invariant
            n == v@.len(),
            i <= j <= n,
            forall|k: int| j <= k < n ==> is_space(v@[k]),
        decreases j,
    {
        j = j - 1;
    }
    proof {
        lemma_trimmed_start(v@, i as int);
        let t = v@.skip(i as int);
        assert forall|k: int| j - i <= k < t.len() implies is_space(t[k]) by {
            assert(t[k] == v@[k + i]);
        }
        lemma_trimmed_end(t, j - i);
        assert(t.take(j - i) =~= v@.subrange(i as int, j as int));
    }
    string_of(&v, i, j)
}

/// The text without leading white space.
pub fn trim_start(s: &str) -> (r: String)
    ensures
        r@ == trimmed_start(s@),
{
    let v = chars_of(s);
    let n: usize = v.len();
    let mut i: usize = 0;
    while i < n && is_whitespace(v[i])
        invariant
            n == v@.len(),
            i <= n,
            forall|k: int| 0 <= k < i ==> is_space(v@[k]),
        decreases n - i,
    {
        i = i + 1;
    }
    proof {
        lemma_trimmed_start(v@, i as int);
        assert(v@.skip(i as int) =~= v@.subrange(i as int, n as int));
    }
    string_of(&v, i, n)
}

/// The position of the first `c` in `s`, or the length of `s` when there is none.
pub open spec fn index_of(s: Seq<char>, c: char) -> int
    decreases s.len(),
{
    if s.len() == 0 || s[0] == c {
        0
    } else {
        1 + index_of(s.skip(1), c)
    }
}

/// The pieces of `s` between occurrences of `c`: one more than `c` occurs.
pub open spec fn split_on(s: Seq<char>, c: char) -> Seq<Seq<char>>
    decreases s.len(),
{
    let i = index_of(s, c);
    if 0 <= i < s.len() {
        seq![s.take(i)] + split_on(s.skip(i + 1), c)
    } else {
        seq![s]
    }
}

/// The texts that a list of strings holds.
pub open spec fn views(v: Seq<String>) -> Seq<Seq<char>> {
    Seq::new(v.len(), |i: int| v[i]@)
}

/// `index_of` is where the scan from the left stops.
pub proof fn lemma_index_of(s: Seq<char>, c: char, i: int)
    requires
        0 <= i <= s.len(),
        forall|k: int| 0 <= k < i ==> s[k] != c,
        i == s.len() || s[i] == c,
    ensures
        index_of(s, c) == i,
    decreases i,
{
    if i > 0 {
        assert(s[0] != c);
        let t = s.skip(1);
        assert forall|k: int| 0 <= k < i - 1 implies t[k] != c by {
            assert(t[k] == s[k + 1]);
        }
        lemma_index_of(t, c, i - 1);
    }
}

/// The position of the first `c` at or after `from`, or the length.
fn find_from(v: &Vec<char>, c: char, from: usize) -> (r: usize)
    requires
        from <= v@.len(),
    ensures
        from <= r <= v@.len(),
        r - from == index_of(v@.skip(from as int), c),
        r == v@.len() || v@[r as int] == c,
{
    let mut i: usize = from;
    while i < v.len() && v[i] != c
        invariant
            from <= i <= v@.len(),
            forall|k: int| from <= k < i ==> v@[k] != c,
        decreases v@.len() - i,
    {
        i = i + 1;
    }
    proof {
        let t = v@.skip(from as int);
        assert forall|k: int| 0 <= k < i - from implies t[k] != c by {
            assert(t[k] == v@[k + from]);
        }
        lemma_index_of(t, c, i - from);
    }
    i
}

/// The text before and after the first `c`, when there is one.
pub fn split_once(s: &str, c: char) -> (r: Option<(String, String)>)
    ensures
        match r {
            Some(p) => {
                &&& index_of(s@, c) < s@.len()
                &&& p.0@ == s@.take(index_of(s@, c))
                &&& p.1@ == s@.skip(index_of(s@, c) + 1)
            },
            None => index_of(s@, c) == s@.len(),
        },
{
    let v = chars_of(s);
    let i: usize = find_from(&v, c, 0);
    proof {
        assert(v@.skip(0) =~= v@);
    }
    if i == v.len() {
        return None;
    }
    let a = string_of(&v, 0, i);
    let b = string_of(&v, i + 1, v.len());
    proof {
        assert(v@.subrange(0, i as int) =~= v@.take(i as int));
        assert(v@.subrange(i + 1, v@.len() as int) =~= v@.skip(i + 1));
    }
    Some((a, b))
}

/// The pieces between occurrences of `c`.
pub fn split(s: &str, c: char) -> (r: Vec<String>)
    ensures
        views(r@) == split_on(s@, c),
{
    let v = chars_of(s);
    let mut out: Vec<String> = Vec::new();
    let mut from: usize = 0;
    proof {
        assert(v@.skip(0) =~= v@);
        assert(views(out@) + split_on(v@.skip(0), c) =~= split_on(s@, c));
    }
    loop
        invariant
            v@ == s@,
            from <= v@.len(),
            views(out@) + split_on(v@.skip(from as int), c) == split_on(s@, c),
        decreases v@.len() - from,
    {
        let i: usize = find_from(&v, c, from);
        let piece = string_of(&v, from, i);
        let ghost rest = v@.skip(from as int);
        let ghost before = out@;
        assert(rest.take(i - from) =~= v@.subrange(from as int, i as int));
        out.push(piece);
        assert(views(out@) =~= views(before).push(piece@));
        if i == v.len() {
            assert(rest.take(i - from) =~= rest);
            assert(views(out@) =~= views(before) + seq![rest]);
            return out;
        }
        assert(rest.skip(i - from + 1) =~= v@.skip(i + 1));
        assert(views(out@) + split_on(v@.skip(i + 1), c) =~= views(before) + split_on(rest, c));
        from = i + 1;
    }
}

/// ASCII upper case of a character; others stay.
pub open spec fn upper_char(c: char) -> char {
    if 'a' <= c <= 'z' {
        (c as u32 - 32) as char
    } else {
        c
    }
}

/// ASCII lower case of a character; others stay.
pub open spec fn lower_char(c: char) -> char {
    if 'A' <= c <= 'Z' {
        (c as u32 + 32) as char
    } else {
        c
    }
}

/// `s` with every ASCII letter in upper case.
pub open spec fn uppercase(s: Seq<char>) -> Seq<char> {
    Seq::new(s.len(), |i: int| upper_char(s[i]))
}

/// `s` with every ASCII letter in lower case.
pub open spec fn lowercase(s: Seq<char>) -> Seq<char> {
    Seq::new(s.len(), |i: int| lower_char(s[i]))
}

fn to_upper_char(c: char) -> (r: char)
    ensures
        r == upper_char(c),
{
    if 'a' <= c && c <= 'z' {
        let n: u8 = (c as u8) - 32;
        n as char
    } else {
        c
    }
}

fn to_lower_char(c: char) -> (r: char)
    ensures
        r == lower_char(c),
{
    if 'A' <= c && c <= 'Z' {
        let n: u8 = (c as u8) + 32;
        n as char
    } else {
        c
    }
}

/// The text with every ASCII letter in upper case.
pub fn to_upper(s: &str) -> (r: String)
    ensures
        r@ == uppercase(s@),
{
    let mut out = String::new();
    for c in it: s.chars()
        invariant
            it.seq() == s@,
            out@ == uppercase(s@.take(it.index() as int)),
    {
        out.push(to_upper_char(c));
        assert(out@ =~= uppercase(s@.take(it.index() as int + 1)));
    }
    assert(s@.take(s@.len() as int) =~= s@);
    out
}

/// The text with every ASCII letter in lower case.
pub fn to_lower(s: &str) -> (r: String)
    ensures
        r@ == lowercase(s@),
{
    let mut out = String::new();
    for c in it: s.chars()
        invariant
            it.seq() == s@,
            out@ == lowercase(s@.take(it.index() as int)),
    {
        out.push(to_lower_char(c));
        assert(out@ =~= lowercase(s@.take(it.index() as int + 1)));
    }
    assert(s@.take(s@.len() as int) =~= s@);
    out
}

/// Whether two texts are the same but for the case of ASCII letters.
pub open spec fn same_nocase(a: Seq<char>, b: Seq<char>) -> bool {
    lowercase(a) == lowercase(b)
}

/// Whether two texts are the same but for the case of ASCII letters.
pub fn same_ignoring_case(a: &str, b: &str) -> (r: bool)
    ensures
        r == same_nocase(a@, b@),
{
    same(to_lower(a).as_str(), to_lower(b).as_str())
}

/// Whether `t` stands in `s` at position `i`.
pub open spec fn occurs_at(s: Seq<char>, t: Seq<char>, i: int) -> bool {
    0 <= i && i + t.len() <= s.len() && s.subrange(i, i + t.len()) == t
}

/// Whether `t` stands somewhere in `s`.
pub open spec fn has(s: Seq<char>, t: Seq<char>) -> bool {
    exists|i: int| occurs_at(s, t, i)
}

/// Whether `s` begins with `t`.
pub open spec fn begins(s: Seq<char>, t: Seq<char>) -> bool {
    occurs_at(s, t, 0)
}

/// Whether `s` ends with `t`.
pub open spec fn ends(s: Seq<char>, t: Seq<char>) -> bool {
    occurs_at(s, t, s.len() - t.len())
}

fn matches_at(v: &Vec<char>, t: &Vec<char>, i: usize) -> (r: bool)
    requires
        i + t@.len() <= v@.len(),
    ensures
        r == occurs_at(v@, t@, i as int),
{
    let n: usize = v.len();
    let mut k: usize = 0;
    while k < t.len()
        invariant
            n == v@.len(),
            i + t@.len() <= n,
            k <= t@.len(),
            forall|j: int| 0 <= j < k ==> v@[i + j] == t@[j],
        decreases t@.len() - k,
    {
        if v[i + k] != t[k] {
            assert(v@.subrange(i as int, i + t@.len())[k as int] != t@[k as int]);
            return false;
        }
        k = k + 1;
    }
    assert(v@.subrange(i as int, i + t@.len()) =~= t@);
    true
}

/// Whether `t` stands somewhere in `s`.
pub fn contains(s: &str, t: &str) -> (r: bool)
    ensures
        r == has(s@, t@),
{
    let v = chars_of(s);
    let w = chars_of(t);
    if w.len() > v.len() {
        return false;
    }
    let last: usize = v.len() - w.len();
    let mut i: usize = 0;
    while i <= last
        invariant
            v@ == s@,
            w@ == t@,
            last == v@.len() - w@.len(),
            i <= last + 1,
            last < v@.len() || w@.len() == 0,
            forall|k: int| 0 <= k < i ==> !occurs_at(s@, t@, k),
        decreases last + 1 - i,
    {
        if matches_at(&v, &w, i) {
            return true;
        }
        if i == last {
            return false;
        }
        i = i + 1;
    }
    false
}

/// Whether `s` begins with `t`.
pub fn starts_with(s: &str, t: &str) -> (r: bool)
    ensures
        r == begins(s@, t@),
{
    let v = chars_of(s);
    let w = chars_of(t);
    if w.len() > v.len() {
        return false;
    }
    matches_at(&v, &w, 0)
}

/// Whether `s` ends with `t`.
pub fn ends_with(s: &str, t: &str) -> (r: bool)
    ensures
        r == ends(s@, t@),
{
    let v = chars_of(s);
    let w = chars_of(t);
    if w.len() > v.len() {
        return false;
    }
    matches_at(&v, &w, v.len() - w.len())
}

/// Whether the character is an ASCII digit.
pub open spec fn is_digit(c: char) -> bool {
    '0' <= c <= '9'
}

/// Whether the character is an ASCII letter or digit.
pub open spec fn is_alnum(c: char) -> bool {
    is_digit(c) || 'a' <= c <= 'z' || 'A' <= c <= 'Z'
}

/// Whether the character is an ASCII letter or digit.
pub fn is_alphanumeric(c: char) -> (r: bool)
    ensures
        r == is_alnum(c),
{
    ('0' <= c && c <= '9') || ('a' <= c && c <= 'z') || ('A' <= c && c <= 'Z')
}

/// Whether `s` consists of ASCII digits.
pub open spec fn all_digits(s: Seq<char>) -> bool {
    forall|i: int| 0 <= i < s.len() ==> is_digit(#[trigger] s[i])
}

/// The number that a sequence of decimal digits stands for.
pub open spec fn digits_value(s: Seq<char>) -> nat
    decreases s.len(),
{
    if s.len() == 0 {
        0
    } else {
        digits_value(s.drop_last()) * 10 + (s.last() as nat - '0' as nat) as nat
    }
}

/// The decimal digits of a number, without leading zeros.
pub open spec fn decimal(n: nat) -> Seq<char>
    decreases n,
{
    if n < 10 {
        seq![(n + 48) as char]
    } else {
        decimal(n / 10).push((n % 10 + 48) as char)
    }
}

/// The number that a text denotes: decimal digits after an optional `+`.
pub open spec fn number(s: Seq<char>) -> Option<nat> {
    let d = if s.len() > 0 && s[0] == '+' {
        s.skip(1)
    } else {
        s
    };
    if d.len() > 0 && all_digits(d) {
        Some(digits_value(d))
    } else {
        None
    }
}

/// The number that a text denotes, when it is at most `max`.
pub open spec fn number_up_to(s: Seq<char>, max: nat) -> Option<nat> {
    match number(s) {
        Some(n) => if n <= max {
            Some(n)
        } else {
            None
        },
        None => None,
    }
}

/// A prefix of a digit sequence stands for a number that is no larger.
proof fn lemma_digits_monotone(s: Seq<char>, i: int)
    requires
        0 <= i <= s.len(),
        all_digits(s),
    ensures
        digits_value(s.take(i)) <= digits_value(s),
    decreases s.len() - i,
{
    if i < s.len() {
        let t = s.drop_last();
        assert forall|k: int| 0 <= k < t.len() implies is_digit(#[trigger] t[k]) by {
            assert(t[k] == s[k]);
        }
        lemma_digits_monotone(t, i);
        assert(t.take(i) =~= s.take(i));
        assert(is_digit(s[s.len() - 1]));
    } else {
        assert(s.take(i) =~= s);
    }
}

/// Reads a decimal number that is at most `max`.
pub fn parse_up_to(s: &str, max: u64) -> (r: Option<u64>)
    ensures
        match r {
            Some(n) => number_up_to(s@, max as nat) == Some(n as nat),
            None => number_up_to(s@, max as nat) is None,
        },
{
    let v = chars_of(s);
    let start: usize = if v.len() > 0 && v[0] == '+' {
        1
    } else {
        0
    };
    let ghost d = v@.skip(start as int);
    assert(start == 0 ==> d =~= s@);
    if v.len() == start {
        return None;
    }
    let mut value: u64 = 0;
    let mut i: usize = start;
    let mut over: bool = false;
    assert(d.take(0) =~= Seq::<char>::empty());
    while i < v.len()
        invariant
            start <= i <= v@.len(),
            start < v@.len(),
            d == v@.skip(start as int),
            d.len() > 0,
            number(s@) == (if all_digits(d) { Some(digits_value(d)) } else { None::<nat> }),
            forall|k: int| 0 <= k < i - start ==> is_digit(#[trigger] d[k]),
            !over ==> value == digits_value(d.take(i - start)) && value <= max,
            over ==> (all_digits(d) ==> digits_value(d) > max),
        decreases v@.len() - i,
    {
        let c: char = v[i];
        assert(d[i - start] == c);
        if !('0' <= c && c <= '9') {
            assert(!is_digit(d[i - start]));
            return None;
        }
        let digit: u64 = (c as u8 - 48) as u64;
        proof {
            let p = d.take(i - start + 1);
            assert(p.drop_last() =~= d.take(i - start));
            assert(p.last() == c);
            assert(digits_value(p) == digits_value(d.take(i - start)) * 10 + digit as nat);
            if all_digits(d) {
                lemma_digits_monotone(d, i - start + 1);
            }
        }
        if !over {
            if value > max / 10 || digit > max || value * 10 > max - digit {
                over = true;
            } else {
                value = value * 10 + digit;
            }
        }
        i = i + 1;
    }
    assert(d.take(i - start) =~= d);
    if over {
        None
    } else {
        Some(value)
    }
}

/// The decimal digits of a number.
pub fn format_u64(n: u64) -> (r: String)
    ensures
        r@ == decimal(n as nat),
    decreases n,
{
    let digit: u8 = (n % 10) as u8 + 48;
    let mut s = if n < 10 {
        String::new()
    } else {
        format_u64(n / 10)
    };
    s.push(digit as char);
    proof {
        if n < 10 {
            assert(s@ =~= decimal(n as nat));
        }
    }
    s
}

/// The part of `s` before the first `c`; all of it when there is none.
pub open spec fn up_to(s: Seq<char>, c: char) -> Seq<char> {
    s.take(index_of(s, c))
}

/// The part of the text before the first `c`; all of it when there is none.
pub fn before(s: &str, c: char) -> (r: String)
    ensures
        r@ == up_to(s@, c),
{
    let v = chars_of(s);
    let i: usize = find_from(&v, c, 0);
    proof {
        assert(v@.skip(0) =~= v@);
        assert(v@.subrange(0, i as int) =~= v@.take(i as int));
    }
    string_of(&v, 0, i)
}

/// The first `n` characters, or all of them when there are fewer.
pub open spec fn head_of(s: Seq<char>, n: int) -> Seq<char> {
    if s.len() > n {
        s.take(n)
    } else {
        s
    }
}

/// The first `n` characters, or all of them when there are fewer.
pub fn head(s: &str, n: usize) -> (r: String)
    ensures
        r@ == head_of(s@, n as int),
{
    let v = chars_of(s);
    let m: usize = if v.len() > n {
        n
    } else {
        v.len()
    };
    proof {
        assert(v@.subrange(0, m as int) =~= head_of(s@, n as int));
    }
    string_of(&v, 0, m)
}

/// `s` without `t` at its end, where it ends so.
pub open spec fn without_suffix(s: Seq<char>, t: Seq<char>) -> Seq<char> {
    if ends(s, t) {
        s.take(s.len() - t.len())
    } else {
        s
    }
}

/// The text without `t` at its end, where it ends so.
pub fn strip_suffix(s: &str, t: &str) -> (r: String)
    ensures
        r@ == without_suffix(s@, t@),
{
    if !ends_with(s, t) {
        return s.to_owned();
    }
    let v = chars_of(s);
    let w = chars_of(t);
    let n: usize = v.len() - w.len();
    proof {
        assert(v@.subrange(0, n as int) =~= v@.take(n as int));
    }
    string_of(&v, 0, n)
}

/// Those of the first `n` pieces that are not blank, trimmed.
pub open spec fn filled(v: Seq<Seq<char>>, n: int) -> Seq<Seq<char>>
    decreases n,
{
    if n <= 0 {
        Seq::empty()
    } else if trimmed(v[n - 1]).len() > 0 {
        filled(v, n - 1).push(trimmed(v[n - 1]))
    } else {
        filled(v, n - 1)
    }
}

/// The pieces of a list written with `c` between them, trimmed, without the blank ones.
pub open spec fn listed(s: Seq<char>, c: char) -> Seq<Seq<char>> {
    filled(split_on(s, c), split_on(s, c).len() as int)
}

/// The pieces of a list written with `c` between them, trimmed, without the blank ones.
pub fn list(s: &str, c: char) -> (r: Vec<String>)
    ensures
        views(r@) == listed(s@, c),
{
    let parts = split(s, c);
    let ghost all = split_on(s@, c);
    let mut out: Vec<String> = Vec::new();
    let mut i: usize = 0;
    assert(views(out@) =~= Seq::empty());
    while i < parts.len()
        invariant
            i <= parts@.len(),
            all == views(parts@),
            views(out@) == filled(all, i as int),
        decreases parts@.len() - i,
    {
        assert(all[i as int] == parts@[i as int]@);
        let p = trim(parts[i].as_str());
        if !p.as_str().is_empty() {
            let ghost before = out@;
            let ghost seen = p@;
            out.push(p);
            assert(views(out@) =~= views(before).push(seen));
        }
        i = i + 1;
    }
    out
}

/// The first `n` texts with `sep` between them.
pub open spec fn joined(v: Seq<Seq<char>>, sep: Seq<char>, n: int) -> Seq<char>
    decreases n,
{
    if n <= 0 {
        Seq::empty()
    } else if n == 1 {
        v[0]
    } else {
        joined(v, sep, n - 1) + sep + v[n - 1]
    }
}

/// All of the texts with `sep` between them.
pub open spec fn join_all(v: Seq<Seq<char>>, sep: Seq<char>) -> Seq<char> {
    joined(v, sep, v.len() as int)
}

/// The texts with `sep` between them.
pub fn join(v: &Vec<String>, sep: &str) -> (r: String)
    ensures
        r@ == join_all(views(v@), sep@),
{
    let ghost all = views(v@);
    let mut out = String::new();
    let mut i: usize = 0;
    while i < v.len()
        invariant
            i <= v@.len(),
            all == views(v@),
            out@ == joined(all, sep@, i as int),
        decreases v@.len() - i,
    {
        assert(all[i as int] == v@[i as int]@);
        if i > 0 {
            out.append(sep);
        }
        out.append(v[i].as_str());
        assert(i == 0 ==> out@ =~= v@[0]@);
        i = i + 1;
    }
    out
}

/// The number that a text denotes: decimal digits after an optional sign.
pub open spec fn signed_number(s: Seq<char>) -> Option<int> {
    if s.len() > 0 && s[0] == '-' {
        if s.len() > 1 && all_digits(s.skip(1)) {
            Some(-(digits_value(s.skip(1)) as int))
        } else {
            None
        }
    } else {
        match number(s) {
            Some(n) => Some(n as int),
            None => None,
        }
    }
}

/// The number that a text denotes, when it has 32 bits.
pub open spec fn number_i32(s: Seq<char>) -> Option<i32> {
    match signed_number(s) {
        Some(n) => if i32::MIN <= n <= i32::MAX {
            Some(n as i32)
        } else {
            None
        },
        None => None,
    }
}

/// Reads a decimal number of 32 bits.
pub fn parse_i32(s: &str) -> (r: Option<i32>)
    ensures
        r == number_i32(s@),
{
    let v = chars_of(s);
    let n: usize = v.len();
    if n > 0 && v[0] == '-' {
        let rest = string_of(&v, 1, n);
        assert(rest@ =~= s@.skip(1));
        if n > 1 && v[1] == '+' {
            assert(rest@[0] == '+');
            assert(!is_digit(rest@[0]));
            return None;
        }
        match parse_up_to(rest.as_str(), 2147483648) {
            Some(x) => Some((0 - x as i64) as i32),
            None => None,
        }
    } else {
        match parse_up_to(s, 2147483647) {
            Some(x) => Some(x as i32),
            None => None,
        }
    }
}

/// `s` without the `c`s at its start.
pub open spec fn without_leading(s: Seq<char>, c: char) -> Seq<char>
    decreases s.len(),
{
    if s.len() > 0 && s[0] == c {
        without_leading(s.skip(1), c)
    } else {
        s
    }
}

/// `s` without the `c`s at its end.
pub open spec fn without_trailing(s: Seq<char>, c: char) -> Seq<char>
    decreases s.len(),
{
    if s.len() > 0 && s.last() == c {
        without_trailing(s.drop_last(), c)
    } else {
        s
    }
}

/// The text without the `c`s at its start.
pub fn strip_leading(s: &str, c: char) -> (r: String)
    ensures
        r@ == without_leading(s@, c),
{
    let v = chars_of(s);
    let n: usize = v.len();
    let mut i: usize = 0;
    assert(v@.skip(0) =~= v@);
    while i < n && v[i] == c
        invariant
            i <= n,
            n == v@.len(),
            without_leading(v@.skip(i as int), c) == without_leading(v@, c),
        decreases n - i,
    {
        assert(v@.skip(i as int).skip(1) =~= v@.skip(i + 1));
        i = i + 1;
    }
    assert(v@.skip(i as int) =~= v@.subrange(i as int, n as int));
    string_of(&v, i, n)
}

/// The text without the `c`s at its end.
pub fn strip_trailing(s: &str, c: char) -> (r: String)
    ensures
        r@ == without_trailing(s@, c),
{
    let v = chars_of(s);
    let mut n: usize = v.len();
    assert(v@.take(n as int) =~= v@);
    while n > 0 && v[n - 1] == c
        invariant
            n <= v@.len(),
            without_trailing(v@.take(n as int), c) == without_trailing(v@, c),
        decreases n,
    {
        assert(v@.take(n as int).drop_last() =~= v@.take(n - 1));
        n = n - 1;
    }
    assert(v@.take(n as int) =~= v@.subrange(0, n as int));
    string_of(&v, 0, n)
}

/// The text without white space at its end.
pub fn trim_end(s: &str) -> (r: String)
    ensures
        r@ == trimmed_end(s@),
{
    let v = chars_of(s);
    let mut n: usize = v.len();
    assert(v@.take(n as int) =~= v@);
    while n > 0 && is_whitespace(v[n - 1])
        invariant
            n <= v@.len(),
            trimmed_end(v@.take(n as int)) == trimmed_end(v@),
        decreases n,
    {
        assert(v@.take(n as int).drop_last() =~= v@.take(n - 1));
        n = n - 1;
    }
    assert(v@.take(n as int) =~= v@.subrange(0, n as int));
    string_of(&v, 0, n)
}

/// A line without the carriage return before its line feed.
pub open spec fn without_return(s: Seq<char>) -> Seq<char> {
    if s.len() > 0 && s.last() == '\r' {
        s.drop_last()
    } else {
        s
    }
}

/// The lines of a text: each ends at a line feed, or a carriage return and a line feed, and what
/// follows the last of them is a line unless it is empty.
pub open spec fn lines_of(s: Seq<char>) -> Seq<Seq<char>> {
    let p = split_on(s, '\n');
    let n: nat = if p.last().len() == 0 {
        (p.len() - 1) as nat
    } else {
        p.len()
    };
    Seq::new(
        n,
        |i: int|
            if i < p.len() - 1 {
                without_return(p[i])
            } else {
                p[i]
            },
    )
}

/// A text has at least one piece.
pub proof fn lemma_split_len(s: Seq<char>, c: char)
    ensures
        split_on(s, c).len() >= 1,
{
}

/// The lines of a text.
pub fn lines(s: &str) -> (r: Vec<String>)
    ensures
        views(r@) == lines_of(s@),
{
    let parts = split(s, '\n');
    let ghost p = split_on(s@, '\n');
    proof {
        lemma_split_len(s@, '\n');
        assert(p.last() == parts@[parts@.len() - 1]@);
    }
    let last: usize = parts.len() - 1;
    let n: usize = if parts[last].as_str().is_empty() {
        last
    } else {
        parts.len()
    };
    let mut out: Vec<String> = Vec::new();
    let mut i: usize = 0;
    while i < n
        invariant
            p == views(parts@),
            last == p.len() - 1,
            n <= p.len(),
            i <= n,
            lines_of(s@).len() == n,
            p == split_on(s@, '\n'),
            views(out@) == lines_of(s@).take(i as int),
        decreases n - i,
    {
        assert(p[i as int] == parts@[i as int]@);
        let line = if i < last {
            strip_suffix_char(parts[i].as_str(), '\r')
        } else {
            parts[i].clone()
        };
        let ghost before = out@;
        let ghost text = line@;
        out.push(line);
        assert(views(out@) =~= views(before).push(text));
        assert(views(out@) =~= lines_of(s@).take(i + 1));
        i = i + 1;
    }
    assert(lines_of(s@).take(n as int) =~= lines_of(s@));
    out
}

fn strip_suffix_char(s: &str, c: char) -> (r: String)
    ensures
        r@ == (if s@.len() > 0 && s@.last() == c {
            s@.drop_last()
        } else {
            s@
        }),
{
    let v = chars_of(s);
    let n: usize = v.len();
    if n > 0 && v[n - 1] == c {
        assert(v@.subrange(0, n - 1) =~= v@.drop_last());
        string_of(&v, 0, n - 1)
    } else {
        assert(v@.subrange(0, n as int) =~= v@);
        string_of(&v, 0, n)
    }
}

/// `s` up to its first white space.
pub open spec fn until_space(s: Seq<char>) -> Seq<char>
    decreases s.len(),
{
    if s.len() == 0 || is_space(s[0]) {
        Seq::empty()
    } else {
        seq![s[0]] + until_space(s.skip(1))
    }
}

/// The first word of a text; empty when there is none.
pub open spec fn first_word(s: Seq<char>) -> Seq<char> {
    until_space(trimmed_start(s))
}

proof fn lemma_until_space(s: Seq<char>, n: int)
    requires
        0 <= n <= s.len(),
        forall|k: int| 0 <= k < n ==> !is_space(#[trigger] s[k]),
        n == s.len() || is_space(s[n]),
    ensures
        until_space(s) == s.take(n),
    decreases n,
{
    if n > 0 {
        assert(!is_space(s[0]));
        let t = s.skip(1);
        assert forall|k: int| 0 <= k < n - 1 implies !is_space(#[trigger] t[k]) by {
            assert(t[k] == s[k + 1]);
        }
        lemma_until_space(t, n - 1);
        assert(seq![s[0]] + t.take(n - 1) =~= s.take(n));
    } else {
        assert(s.take(0) =~= Seq::empty());
    }
}

/// The first word of a text; empty when there is none.
pub fn word(s: &str) -> (r: String)
    ensures
        r@ == first_word(s@),
{
    let t = trim_start(s);
    let v = chars_of(t.as_str());
    let mut n: usize = 0;
    while n < v.len() && !is_whitespace(v[n])
        invariant
            n <= v@.len(),
            forall|k: int| 0 <= k < n ==> !is_space(#[trigger] v@[k]),
        decreases v@.len() - n,
    {
        n = n + 1;
    }
    proof {
        lemma_until_space(v@, n as int);
        assert(v@.subrange(0, n as int) =~= v@.take(n as int));
    }
    string_of(&v, 0, n)
}

/// `s` without the `t`s at its start, as often as one stands there.
pub open spec fn without_prefixes(s: Seq<char>, t: Seq<char>) -> Seq<char>
    decreases s.len(),
{
    if t.len() > 0 && begins(s, t) {
        without_prefixes(s.skip(t.len() as int), t)
    } else {
        s
    }
}

/// The text after `t` at its start, where it begins so.
pub fn strip_prefix(s: &str, t: &str) -> (r: Option<String>)
    ensures
        match r {
            Some(rest) => begins(s@, t@) && rest@ == s@.skip(t@.len() as int),
            None => !begins(s@, t@),
        },
{
    if !starts_with(s, t) {
        return None;
    }
    let v = chars_of(s);
    let w = chars_of(t);
    assert(v@.subrange(w@.len() as int, v@.len() as int) =~= s@.skip(t@.len() as int));
    Some(string_of(&v, w.len(), v.len()))
}

/// The text without the `t`s at its start, as often as one stands there.
pub fn strip_prefixes(s: &str, t: &str) -> (r: String)
    ensures
        r@ == without_prefixes(s@, t@),
{
    let mut rest = s.to_owned();
    if t.is_empty() {
        return rest;
    }
    loop
        invariant
            t@.len() > 0,
            without_prefixes(rest@, t@) == without_prefixes(s@, t@),
        decreases rest@.len(),
    {
        match strip_prefix(rest.as_str(), t) {
            Some(r) => {
                rest = r;
            },
            None => {
                return rest;
            },
        }
    }
}

/// The first position, from `i` on, where `t` stands in `s`.
pub open spec fn position_from(s: Seq<char>, t: Seq<char>, i: int) -> Option<int>
    decreases s.len() + 1 - i,
{
    if i < 0 || i + t.len() > s.len() {
        None
    } else if occurs_at(s, t, i) {
        Some(i)
    } else {
        position_from(s, t, i + 1)
    }
}

/// What follows the first `t` in `s`.
pub open spec fn rest_after(s: Seq<char>, t: Seq<char>) -> Option<Seq<char>> {
    match position_from(s, t, 0) {
        Some(i) => Some(s.skip(i + t.len())),
        None => None,
    }
}

/// What follows the first `t` in the text.
pub fn after(s: &str, t: &str) -> (r: Option<String>)
    ensures
        match r {
            Some(rest) => rest_after(s@, t@) == Some(rest@),
            None => rest_after(s@, t@) is None,
        },
{
    let v = chars_of(s);
    let w = chars_of(t);
    let n: usize = v.len();
    let m: usize = w.len();
    let mut i: usize = 0;
    while i <= n && m <= n - i
        invariant
            v@ == s@,
            w@ == t@,
            n == v@.len(),
            m == w@.len(),
            i <= n + 1,
            i <= n || m == 0,
            position_from(s@, t@, 0) == position_from(s@, t@, i as int),
        decreases n + 1 - i,
    {
        if matches_at(&v, &w, i) {
            assert(v@.subrange(i + m, n as int) =~= s@.skip(i + t@.len()));
            return Some(string_of(&v, i + m, n));
        }
        if i == n {
            assert(position_from(s@, t@, i + 1) is None);
            return None;
        }
        i = i + 1;
    }
    None
}

/// Where `index_of` points: no `c` before it, and a `c` there unless it is the length.
pub proof fn lemma_index_of_is_first(s: Seq<char>, c: char)
    ensures
        0 <= index_of(s, c) <= s.len(),
        forall|k: int| 0 <= k < index_of(s, c) ==> s[k] != c,
        index_of(s, c) < s.len() ==> s[index_of(s, c)] == c,
    decreases s.len(),
{
    if s.len() > 0 && s[0] != c {
        let t = s.skip(1);
        lemma_index_of_is_first(t, c);
        assert forall|k: int| 0 <= k < index_of(s, c) implies s[k] != c by {
            if k > 0 {
                assert(t[k - 1] == s[k]);
            }
        }
    }
}

/// A text without `c` is one piece.
pub proof fn lemma_split_of_one(s: Seq<char>, c: char)
    requires
        forall|k: int| 0 <= k < s.len() ==> s[k] != c,
    ensures
        split_on(s, c) == seq![s],
{
    lemma_index_of(s, c, s.len() as int);
}

/// The pieces of two texts with `c` between them are those of the one and those of the other.
pub proof fn lemma_split_of_two(s: Seq<char>, t: Seq<char>, c: char)
    ensures
        split_on(s + seq![c] + t, c) == split_on(s, c) + split_on(t, c),
    decreases s.len(),
{
    let whole = s + seq![c] + t;
    let i = index_of(s, c);
    lemma_index_of_is_first(s, c);
    assert forall|k: int| 0 <= k < i implies whole[k] != c by {
        assert(whole[k] == s[k]);
    }
    lemma_index_of(whole, c, i);
    assert(whole.take(i) =~= s.take(i));
    if i < s.len() {
        let rest = s.skip(i + 1);
        lemma_split_of_two(rest, t, c);
        assert(whole.skip(i + 1) =~= rest + seq![c] + t);
        assert(seq![s.take(i)] + (split_on(rest, c) + split_on(t, c)) =~= (seq![s.take(i)]
            + split_on(rest, c)) + split_on(t, c));
    } else {
        assert(s.take(i) =~= s);
        assert(whole.skip(i + 1) =~= t);
    }
}

/// Joining some texts with `c` between them and splitting at `c` gives them back, when none of
/// them holds a `c`.
pub proof fn lemma_split_of_joined(v: Seq<Seq<char>>, c: char, n: int)
    requires
        1 <= n <= v.len(),
        forall|i: int, k: int| 0 <= i < n && 0 <= k < v[i].len() ==> #[trigger] v[i][k] != c,
    ensures
        split_on(joined(v, seq![c], n), c) == v.take(n),
    decreases n,
{
    lemma_split_of_one(v[n - 1], c);
    if n == 1 {
        assert(seq![v[0]] =~= v.take(1));
    } else {
        lemma_split_of_joined(v, c, n - 1);
        lemma_split_of_two(joined(v, seq![c], n - 1), v[n - 1], c);
        assert(v.take(n - 1) + seq![v[n - 1]] =~= v.take(n));
    }
}

/// A text without white space at its ends stays as it is when it is trimmed.
pub proof fn lemma_trimmed_stays(s: Seq<char>)
    requires
        s.len() > 0 ==> !is_space(s[0]) && !is_space(s.last()),
    ensures
        trimmed(s) == s,
{
}

/// What the decimal text of a number looks like, and that it denotes the number.
pub proof fn lemma_decimal(n: nat)
    ensures
        decimal(n).len() >= 1,
        all_digits(decimal(n)),
        digits_value(decimal(n)) == n,
        decimal(n).len() == 1 <==> n < 10,
        n >= 10 ==> decimal(n)[0] != '0',
        n < 100 ==> decimal(n).len() <= 2,
        n < 1000 ==> decimal(n).len() <= 3,
    decreases n,
{
    let d = decimal(n);
    if n < 10 {
        assert(d.drop_last() =~= Seq::empty());
        assert(digits_value(d.drop_last()) == 0);
    } else {
        let h = decimal(n / 10);
        lemma_decimal(n / 10);
        assert(d.drop_last() =~= h);
        assert(d[0] == h[0]);
        assert forall|k: int| 0 <= k < d.len() implies is_digit(#[trigger] d[k]) by {
            if k < h.len() {
                assert(is_digit(h[k]));
            }
        }
        if n / 10 < 10 {
            assert(h[0] == (n / 10 + 48) as char);
        }
    }
}

/// The decimal text of a number denotes that number, and stays as it is when it is trimmed; it is
/// refused when it is too large.
pub proof fn law_number_reads_back(n: nat, max: nat)
    ensures
        number(decimal(n)) == Some(n),
        trimmed(decimal(n)) == decimal(n),
        n <= max ==> number_up_to(decimal(n), max) == Some(n),
        n > max ==> number_up_to(decimal(n), max) is None,
{
    let d = decimal(n);
    lemma_decimal(n);
    assert(is_digit(d[0]));
    assert(is_digit(d[d.len() - 1]));
    lemma_trimmed_stays(d);
}

proof fn lemma_start_of(s: Seq<char>) -> (i: int)
    ensures
        0 <= i <= s.len(),
        forall|k: int| 0 <= k < i ==> is_space(s[k]),
        i < s.len() ==> !is_space(s[i]),
        trimmed_start(s) == s.skip(i),
    decreases s.len(),
{
    if s.len() > 0 && is_space(s[0]) {
        let t = s.skip(1);
        let i = lemma_start_of(t);
        assert forall|k: int| 0 <= k < i + 1 implies is_space(s[k]) by {
            if k > 0 {
                assert(t[k - 1] == s[k]);
            }
        }
        assert(t.skip(i) =~= s.skip(i + 1));
        i + 1
    } else {
        assert(s.skip(0) =~= s);
        0
    }
}

proof fn lemma_end_of(s: Seq<char>) -> (j: int)
    ensures
        0 <= j <= s.len(),
        forall|k: int| j <= k < s.len() ==> is_space(s[k]),
        j > 0 ==> !is_space(s[j - 1]),
        trimmed_end(s) == s.take(j),
    decreases s.len(),
{
    if s.len() > 0 && is_space(s.last()) {
        let t = s.drop_last();
        let j = lemma_end_of(t);
        assert forall|k: int| j <= k < s.len() implies is_space(s[k]) by {
            if k < t.len() {
                assert(t[k] == s[k]);
            }
        }
        assert(t.take(j) =~= s.take(j));
        j
    } else {
        assert(s.take(s.len() as int) =~= s);
        s.len() as int
    }
}

/// Trimming takes white space from both ends, all of it, and nothing else; blanks, tabs and line
/// ends are white space, and letters and digits are not.
pub proof fn law_trimming_takes_white_space(s: Seq<char>)
    ensures
        exists|i: int, j: int|
            {
                &&& 0 <= i <= j <= s.len()
                &&& trimmed(s) == #[trigger] s.subrange(i, j)
                &&& forall|k: int| 0 <= k < i || j <= k < s.len() ==> is_space(s[k])
            },
        trimmed(s).len() > 0 ==> !is_space(trimmed(s)[0]) && !is_space(trimmed(s).last()),
        is_space(' ') && is_space('\t') && is_space('\n') && is_space('\r'),
        forall|c: char| is_alnum(c) ==> !is_space(c),
{
    let i = lemma_start_of(s);
    let t = s.skip(i);
    let j = lemma_end_of(t);
    assert(t.take(j) =~= s.subrange(i, i + j));
    assert forall|k: int| 0 <= k < i || i + j <= k < s.len() implies is_space(s[k]) by {
        if k >= i {
            assert(t[k - i] == s[k]);
        }
    }
    if j > 0 {
        assert(t[j - 1] == s[i + j - 1]);
        assert(t[0] == s[i]);
    }
}

proof fn lemma_pieces(s: Seq<char>, c: char)
    ensures
        split_on(s, c).len() >= 1,
        joined(split_on(s, c), seq![c], split_on(s, c).len() as int) == s,
        forall|i: int, k: int|
            0 <= i < split_on(s, c).len() && 0 <= k < split_on(s, c)[i].len() ==> #[trigger] split_on(
                s,
                c,
            )[i][k] != c,
    decreases s.len(),
{
    let at = index_of(s, c);
    lemma_index_of_is_first(s, c);
    let v = split_on(s, c);
    if at < s.len() {
        let rest = s.skip(at + 1);
        lemma_pieces(rest, c);
        let w = split_on(rest, c);
        assert forall|i: int, k: int| 0 <= i < v.len() && 0 <= k < v[i].len() implies #[trigger] v[i][k]
            != c by {
            if i > 0 {
                assert(v[i] == w[i - 1]);
                assert(w[i - 1][k] != c);
            }
        }
        lemma_joined_after(s.take(at), w, c, w.len() as int);
        assert(s.take(at) + seq![c] + rest =~= s);
    } else {
        reveal_with_fuel(joined, 2);
        assert(joined(v, seq![c], 1) =~= s);
    }
}

proof fn lemma_joined_after(first: Seq<char>, w: Seq<Seq<char>>, c: char, n: int)
    requires
        1 <= n <= w.len(),
    ensures
        joined(seq![first] + w, seq![c], n + 1) == first + seq![c] + joined(w, seq![c], n),
    decreases n,
{
    let v = seq![first] + w;
    reveal_with_fuel(joined, 3);
    if n > 1 {
        lemma_joined_after(first, w, c, n - 1);
    }
    assert(v[n] == w[n - 1]);
    assert(v[0] == first);
    assert(joined(v, seq![c], n + 1) =~= first + seq![c] + joined(w, seq![c], n));
}

/// Splitting a text loses nothing: its pieces hold no separator, and with one between each two of
/// them they make the text again.
pub proof fn law_pieces_make_the_text(s: Seq<char>, c: char)
    ensures
        joined(split_on(s, c), seq![c], split_on(s, c).len() as int) == s,
        forall|i: int|
            0 <= i < split_on(s, c).len() ==> !(#[trigger] split_on(s, c)[i]).contains(c),
{
    lemma_pieces(s, c);
}

proof fn lemma_joined_parts(a: Seq<Seq<char>>, b: Seq<Seq<char>>, sep: Seq<char>, n: int)
    requires
        0 <= n <= b.len(),
    ensures
        joined(a + b, sep, a.len() as int) == joined(a, sep, a.len() as int),
        a.len() > 0 && n > 0 ==> joined(a + b, sep, a.len() + n) == joined(a, sep, a.len() as int)
            + sep + joined(b, sep, n),
    decreases n,
{
    lemma_joined_prefix(a, b, sep, a.len() as int);
    if n > 0 {
        lemma_joined_parts(a, b, sep, n - 1);
        assert((a + b)[a.len() + n - 1] == b[n - 1]);
        if a.len() > 0 {
            if n == 1 {
                assert(joined(b, sep, 1) == b[0]);
            } else {
                assert(joined(a + b, sep, a.len() + n) =~= joined(a, sep, a.len() as int) + sep
                    + joined(b, sep, n));
            }
        }
    }
}

proof fn lemma_joined_prefix(a: Seq<Seq<char>>, b: Seq<Seq<char>>, sep: Seq<char>, n: int)
    requires
        0 <= n <= a.len(),
    ensures
        joined(a + b, sep, n) == joined(a, sep, n),
    decreases n,
{
    if n > 1 {
        lemma_joined_prefix(a, b, sep, n - 1);
    }
    if n > 0 {
        assert((a + b)[n - 1] == a[n - 1]);
        assert((a + b)[0] == a[0]);
    }
}

/// Joining keeps every text whole and in order: one alone is itself, and between two lists the
/// separator stands once.
pub proof fn law_joining_keeps_every_text(
    x: Seq<char>,
    a: Seq<Seq<char>>,
    b: Seq<Seq<char>>,
    sep: Seq<char>,
)
    ensures
        join_all(Seq::empty(), sep) == Seq::<char>::empty(),
        join_all(seq![x], sep) == x,
        a.len() > 0 && b.len() > 0 ==> join_all(a + b, sep) == join_all(a, sep) + sep + join_all(
            b,
            sep,
        ),
{
    lemma_joined_parts(a, b, sep, b.len() as int);
}

/// What is taken from the front of a text is `c` alone, and what is left does not begin with it.
pub proof fn law_leading_are_taken(s: Seq<char>, c: char)
    ensures
        ({
            let rest = without_leading(s, c);
            &&& s == Seq::new((s.len() - rest.len()) as nat, |i: int| c) + rest
            &&& rest.len() > 0 ==> rest[0] != c
        }),
    decreases s.len(),
{
    let rest = without_leading(s, c);
    if s.len() > 0 && s[0] == c {
        law_leading_are_taken(s.skip(1), c);
        assert(s =~= seq![c] + s.skip(1));
        assert(s =~= Seq::new((s.len() - rest.len()) as nat, |i: int| c) + rest);
    } else {
        assert(s =~= Seq::new(0, |i: int| c) + rest);
    }
}

/// A text stands at the end of one that it was put behind.
pub proof fn lemma_stands(p: Seq<char>, t: Seq<char>)
    ensures
        has(p + t, t),
{
    let whole = p + t;
    assert(whole.subrange(p.len() as int, whole.len() as int) =~= t);
    assert(occurs_at(whole, t, p.len() as int));
}

/// What stands in a text stands in one that goes on longer.
pub proof fn lemma_stands_before(s: Seq<char>, x: Seq<char>, t: Seq<char>)
    requires
        has(s, t),
    ensures
        has(s + x, t),
{
    let i = choose|i: int| occurs_at(s, t, i);
    assert((s + x).subrange(i, i + t.len()) =~= s.subrange(i, i + t.len()));
    assert(occurs_at(s + x, t, i));
}

/// What stands in a text stands in one that starts earlier.
pub proof fn lemma_stands_behind(x: Seq<char>, s: Seq<char>, t: Seq<char>)
    requires
        has(s, t),
    ensures
        has(x + s, t),
{
    let i = choose|i: int| occurs_at(s, t, i);
    assert((x + s).subrange(x.len() + i, x.len() + i + t.len()) =~= s.subrange(i, i + t.len()));
    assert(occurs_at(x + s, t, x.len() + i));
}

/// Three texts in a row stand in the whole as one.
pub proof fn lemma_row_stands(p: Seq<char>, a: Seq<char>, b: Seq<char>, c: Seq<char>)
    ensures
        has(p + a + b + c, a + b + c),
{
    assert(p + a + b + c =~= p + (a + b + c));
    lemma_stands(p, a + b + c);
}

/// What is taken from the end of a text is `c` alone, and what is left does not end with it.
pub proof fn law_trailing_are_taken(s: Seq<char>, c: char)
    ensures
        ({
            let rest = without_trailing(s, c);
            &&& s == rest + Seq::new((s.len() - rest.len()) as nat, |i: int| c)
            &&& rest.len() > 0 ==> rest.last() != c
        }),
    decreases s.len(),
{
    let rest = without_trailing(s, c);
    if s.len() > 0 && s.last() == c {
        law_trailing_are_taken(s.drop_last(), c);
        assert(s =~= s.drop_last() + seq![c]);
        assert(s =~= rest + Seq::new((s.len() - rest.len()) as nat, |i: int| c));
    } else {
        assert(s =~= rest + Seq::new(0, |i: int| c));
    }
}

proof fn lemma_filled_parts(a: Seq<Seq<char>>, b: Seq<Seq<char>>, n: int)
    requires
        0 <= n <= (a + b).len(),
    ensures
        n <= a.len() ==> filled(a + b, n) == filled(a, n),
        n >= a.len() ==> filled(a + b, n) == filled(a, a.len() as int) + filled(b, n - a.len()),
    decreases n,
{
    if n > 0 {
        lemma_filled_parts(a, b, n - 1);
        if n <= a.len() {
            assert((a + b)[n - 1] == a[n - 1]);
        } else {
            assert((a + b)[n - 1] == b[n - 1 - a.len()]);
        }
    }
    if n >= a.len() {
        assert(filled(a + b, n) =~= filled(a, a.len() as int) + filled(b, n - a.len()));
    }
}

/// Of some texts those that are not blank are kept, each without the white space around it, and
/// in order.
pub proof fn law_blank_texts_are_dropped(a: Seq<Seq<char>>, b: Seq<Seq<char>>, x: Seq<char>)
    ensures
        filled(a + b, (a + b).len() as int) == filled(a, a.len() as int) + filled(
            b,
            b.len() as int,
        ),
        filled(seq![x], 1) == (if trimmed(x).len() > 0 {
            seq![trimmed(x)]
        } else {
            Seq::empty()
        }),
{
    lemma_filled_parts(a, b, (a + b).len() as int);
    reveal_with_fuel(filled, 2);
}

/// Only ASCII letters change case, each into its own other form, and nothing else is touched.
pub proof fn law_case_is_by_character(s: Seq<char>)
    ensures
        lowercase(s).len() == s.len(),
        uppercase(s).len() == s.len(),
        forall|i: int|
            0 <= i < s.len() ==> {
                &&& 'A' <= s[i] <= 'Z' ==> #[trigger] lowercase(s)[i] as u32 == s[i] as u32 + 32
                &&& !('A' <= s[i] <= 'Z') ==> lowercase(s)[i] == s[i]
            },
        forall|i: int|
            0 <= i < s.len() ==> {
                &&& 'a' <= s[i] <= 'z' ==> #[trigger] uppercase(s)[i] as u32 == s[i] as u32 - 32
                &&& !('a' <= s[i] <= 'z') ==> uppercase(s)[i] == s[i]
            },
{
}

/// A line feed, with or without a carriage return before it, ends a line; what follows is read on
/// its own. A text without one is a line unless it is empty, and keeps a carriage return at its
/// end.
pub proof fn law_lines_end_at_line_feeds(line: Seq<char>, rest: Seq<char>)
    requires
        !line.contains('\n'),
    ensures
        line.len() > 0 ==> lines_of(line) == seq![line],
        line.len() == 0 ==> lines_of(line).len() == 0,
        line.len() == 0 || line.last() != '\r' ==> lines_of(line + seq!['\n'] + rest) == seq![line]
            + lines_of(rest),
        lines_of(line + seq!['\r'] + seq!['\n'] + rest) == seq![line] + lines_of(rest),
{
    assert forall|k: int| 0 <= k < line.len() implies line[k] != '\n' by {
        assert(line.contains(line[k]));
    }
    let ended = line + seq!['\r'];
    lemma_split_of_one(line, '\n');
    lemma_split_of_one(ended, '\n');
    lemma_split_of_two(line, rest, '\n');
    lemma_split_of_two(ended, rest, '\n');
    lemma_split_len(rest, '\n');
    let p = split_on(line + seq!['\n'] + rest, '\n');
    let q = split_on(ended + seq!['\n'] + rest, '\n');
    let r = split_on(rest, '\n');
    assert(p.last() == r.last());
    assert(q.last() == r.last());
    assert(ended.drop_last() =~= line);
    if line.len() == 0 || line.last() != '\r' {
        assert(lines_of(line + seq!['\n'] + rest) =~= seq![line] + lines_of(rest));
    }
    assert(lines_of(ended + seq!['\n'] + rest) =~= seq![line] + lines_of(rest));
    if line.len() > 0 {
        assert(lines_of(line) =~= seq![line]);
    }
}

/// The first word of a text ends at its first white space, whatever follows, and white space before
/// it does not count.
pub proof fn law_first_word_ends_at_white_space(w: Seq<char>, c: char, rest: Seq<char>)
    requires
        w.len() > 0,
        forall|k: int| 0 <= k < w.len() ==> !is_space(#[trigger] w[k]),
        is_space(c),
    ensures
        first_word(w) == w,
        first_word(w + seq![c] + rest) == w,
        first_word(seq![c] + w) == w,
{
    let whole = w + seq![c] + rest;
    assert(!is_space(w[0]));
    assert(whole[0] == w[0]);
    assert(trimmed_start(whole) == whole);
    assert(trimmed_start(w) == w);
    assert forall|k: int| 0 <= k < w.len() implies !is_space(#[trigger] whole[k]) by {
        assert(whole[k] == w[k]);
    }
    assert(whole[w.len() as int] == c);
    lemma_until_space(whole, w.len() as int);
    lemma_until_space(w, w.len() as int);
    assert(whole.take(w.len() as int) =~= w);
    assert(w.take(w.len() as int) =~= w);
    let led = seq![c] + w;
    assert(led[0] == c);
    assert(led.skip(1) =~= w);
    assert(trimmed_start(led) == trimmed_start(led.skip(1)));
}

} // verus!
