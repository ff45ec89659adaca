//! The markup of an XML property list, as far as it has to be known before the list is read.
//!
//! The reader of property lists keeps no bound on how deep values are nested, though giving up a
//! value takes stack for each level of it. And it turns every date into a time in UTC, and gives up
//! for good on one that no clock holds: after the year 9999, or before 1601, where the time of some
//! systems begins. [`nesting`] and [`has_wild_date`] find both before the reader sees the bytes.
//! They walk from one piece of markup to the next as the reader does: what looks like a tag inside
//! a comment, a CDATA section, a processing instruction or a quoted attribute is none.

use vstd::prelude::*;
use vstd::slice::slice_subrange;

verus! {

pub const TAB: u8 = 9;

pub const LINE_FEED: u8 = 10;

pub const RETURN: u8 = 13;

pub const SPACE: u8 = 32;

pub const BANG: u8 = 33;

pub const QUOTE: u8 = 34;

pub const AND: u8 = 38;

pub const APOSTROPHE: u8 = 39;

pub const PLUS: u8 = 43;

pub const DASH: u8 = 45;

pub const SLASH: u8 = 47;

pub const ZERO: u8 = 48;

pub const NINE: u8 = 57;

pub const COLON: u8 = 58;

pub const LESS: u8 = 60;

pub const MORE: u8 = 62;

pub const ASK: u8 = 63;

pub const CAPITAL_D: u8 = 68;

pub const BRACKET: u8 = 91;

pub const END_BRACKET: u8 = 93;

pub const SMALL_D: u8 = 100;

/// What a `<` begins.
#[derive(Debug, Clone, Copy, PartialEq, Eq, Structural)]
pub enum Kind {
    /// `<name ...>`, or `<name .../>`, which also ends the element.
    Start,
    /// `</name>`.
    End,
    /// `<!-- ... -->`.
    Comment,
    /// `<![CDATA[ ... ]]>`.
    CData,
    /// `<? ... ?>`.
    Instruction,
    /// `<!DOCTYPE ...>`.
    DocType,
    /// Nothing that is read: the reader stops there.
    Broken,
}

/// The white space of XML.
pub open spec fn is_blank(c: u8) -> bool {
    c == SPACE || c == TAB || c == LINE_FEED || c == RETURN
}

/// What the `<` at `p` begins.
pub open spec fn kind_of(b: Seq<u8>, p: int) -> Kind {
    if p + 1 >= b.len() {
        Kind::Broken
    } else if b[p + 1] == SLASH {
        Kind::End
    } else if b[p + 1] == ASK {
        Kind::Instruction
    } else if b[p + 1] != BANG {
        Kind::Start
    } else if p + 2 >= b.len() {
        Kind::Broken
    } else if b[p + 2] == DASH {
        Kind::Comment
    } else if b[p + 2] == BRACKET {
        Kind::CData
    } else if b[p + 2] == CAPITAL_D || b[p + 2] == SMALL_D {
        Kind::DocType
    } else {
        Kind::Broken
    }
}

/// The first `<` from `i` on.
pub open spec fn less_from(b: Seq<u8>, i: int) -> int
    decreases b.len() - i,
{
    if 0 <= i < b.len() && b[i] != LESS {
        less_from(b, i + 1)
    } else {
        i
    }
}

/// The first `>` or `stop` from `i` on that is not quoted, where `quote` is the quote that `i`
/// stands in.
pub open spec fn unquoted_from(b: Seq<u8>, i: int, quote: Option<u8>, stop: u8) -> int
    decreases b.len() - i,
{
    if !(0 <= i < b.len()) {
        i
    } else {
        match quote {
            Some(q) => unquoted_from(
                b,
                i + 1,
                if b[i] == q {
                    None
                } else {
                    quote
                },
                stop,
            ),
            None => if b[i] == MORE || b[i] == stop {
                i
            } else if b[i] == QUOTE || b[i] == APOSTROPHE {
                unquoted_from(b, i + 1, Some(b[i]), stop)
            } else {
                unquoted_from(b, i + 1, None, stop)
            },
        }
    }
}

/// Whether the byte at `i` is a `>` behind `times` bytes `c`, of which there are one or two.
pub open spec fn ends_run(b: Seq<u8>, i: int, c: u8, times: int) -> bool {
    b[i] == MORE && b[i - 1] == c && (times == 2 ==> b[i - 2] == c)
}

/// The first `>` from `i` on that stands behind `times` bytes `c`.
pub open spec fn run_from(b: Seq<u8>, i: int, c: u8, times: int) -> int
    decreases b.len() - i,
{
    if 0 <= i < b.len() && !ends_run(b, i, c, times) {
        run_from(b, i + 1, c, times)
    } else {
        i
    }
}

/// The last byte of what the `<` at `p` begins; not before the end of `b` when it has none. Of a
/// document type with declarations of its own, the bracket before these.
pub open spec fn last_of(b: Seq<u8>, p: int) -> int {
    match kind_of(b, p) {
        Kind::Start | Kind::End => unquoted_from(b, p + 1, None, MORE),
        Kind::Comment => run_from(b, p + 6, DASH, 2),
        Kind::CData => run_from(b, p + 4, END_BRACKET, 2),
        Kind::Instruction => run_from(b, p + 2, ASK, 1),
        Kind::DocType => unquoted_from(b, p + 2, None, BRACKET),
        Kind::Broken => b.len() as int,
    }
}

/// The search for markup does not go back.
pub proof fn lemma_less_ahead(b: Seq<u8>, i: int)
    ensures
        less_from(b, i) >= i,
    decreases b.len() - i,
{
    if 0 <= i < b.len() && b[i] != LESS {
        lemma_less_ahead(b, i + 1);
    }
}

proof fn lemma_unquoted_ahead(b: Seq<u8>, i: int, quote: Option<u8>, stop: u8)
    ensures
        unquoted_from(b, i, quote, stop) >= i,
    decreases b.len() - i,
{
    if 0 <= i < b.len() {
        lemma_unquoted_ahead(b, i + 1, None, stop);
        lemma_unquoted_ahead(b, i + 1, quote, stop);
        lemma_unquoted_ahead(b, i + 1, Some(b[i]), stop);
    }
}

proof fn lemma_run_ahead(b: Seq<u8>, i: int, c: u8, times: int)
    ensures
        run_from(b, i, c, times) >= i,
    decreases b.len() - i,
{
    if 0 <= i < b.len() && !ends_run(b, i, c, times) {
        lemma_run_ahead(b, i + 1, c, times);
    }
}

/// Markup takes at least two bytes.
pub proof fn lemma_last_ahead(b: Seq<u8>, p: int)
    ensures
        p < b.len() ==> last_of(b, p) > p,
{
    lemma_unquoted_ahead(b, p + 1, None, MORE);
    lemma_unquoted_ahead(b, p + 2, None, BRACKET);
    lemma_run_ahead(b, p + 6, DASH, 2);
    lemma_run_ahead(b, p + 4, END_BRACKET, 2);
    lemma_run_ahead(b, p + 2, ASK, 1);
}

/// How many `<` stand from `i` on.
pub open spec fn less_count(b: Seq<u8>, i: int) -> nat
    decreases b.len() - i,
{
    if !(0 <= i < b.len()) {
        0
    } else if b[i] == LESS {
        less_count(b, i + 1) + 1
    } else {
        less_count(b, i + 1)
    }
}

/// The larger of two numbers.
pub open spec fn larger(a: nat, b: nat) -> nat {
    if a < b {
        b
    } else {
        a
    }
}

/// The most elements that are open at once, when `open` are open at `i` and there were `most` of
/// them before. Behind a document type with declarations of its own, where it is not told what is a
/// tag, every `<` counts as a start tag and nothing as an end tag.
pub open spec fn nesting_from(b: Seq<u8>, i: int, open: nat, most: nat) -> nat
    decreases b.len() - i,
{
    let p = less_from(b, i);
    let last = last_of(b, p);
    if p >= b.len() || last >= b.len() {
        most
    } else {
        proof {
            lemma_less_ahead(b, i);
            lemma_last_ahead(b, p);
        }
        match kind_of(b, p) {
            Kind::Start => nesting_from(
                b,
                last + 1,
                if b[last - 1] == SLASH {
                    open
                } else {
                    open + 1
                },
                larger(most, open + 1),
            ),
            Kind::End => nesting_from(
                b,
                last + 1,
                if open > 0 {
                    (open - 1) as nat
                } else {
                    0
                },
                most,
            ),
            Kind::DocType => if b[last] == BRACKET {
                larger(most, open + less_count(b, last))
            } else {
                nesting_from(b, last + 1, open, most)
            },
            _ => nesting_from(b, last + 1, open, most),
        }
    }
}

/// A bound on the elements of an XML document that are open at once, and so on the depth to which
/// its values are nested. It is their number, but in a document whose type has declarations of its
/// own, where it can be larger.
pub open spec fn nesting_bound(b: Seq<u8>) -> nat {
    nesting_from(b, 0, 0, 0)
}

/// Whether the byte is a digit.
pub open spec fn is_digit(c: u8) -> bool {
    ZERO <= c <= NINE
}

/// Whether a text begins with a day: `YYYY-MM-DD`.
pub open spec fn has_day(s: Seq<u8>) -> bool {
    &&& s.len() >= 10
    &&& is_digit(s[0]) && is_digit(s[1]) && is_digit(s[2]) && is_digit(s[3])
    &&& s[4] == DASH
    &&& is_digit(s[5]) && is_digit(s[6])
    &&& s[7] == DASH
    &&& is_digit(s[8]) && is_digit(s[9])
}

/// The number that two digits write.
pub open spec fn pair(s: Seq<u8>, i: int) -> int {
    (s[i] - ZERO) * 10 + (s[i + 1] - ZERO)
}

/// Whether a byte stands in a text, behind the day that it begins with.
pub open spec fn holds_later(s: Seq<u8>, c: u8) -> bool {
    exists|i: int| 10 <= i < s.len() && #[trigger] s[i] == c
}

/// Whether a text is a date that may lie outside the years 1601 to 9999 in UTC: by its year, or on
/// the first or the last day of them by its offset.
pub open spec fn is_wild(s: Seq<u8>) -> bool {
    let year = pair(s, 0) * 100 + pair(s, 2);
    let month = pair(s, 5);
    let day = pair(s, 8);
    &&& has_day(s)
    &&& {
        ||| year < 1601
        ||| year == 1601 && month == 1 && day == 1 && holds_later(s, PLUS)
        ||| year == 9999 && month == 12 && day == 31 && holds_later(s, DASH)
    }
}

/// Where the text from `i` on ends: at markup or a reference.
pub open spec fn text_end(b: Seq<u8>, i: int) -> int
    decreases b.len() - i,
{
    if 0 <= i < b.len() && b[i] != LESS && b[i] != AND {
        text_end(b, i + 1)
    } else {
        i
    }
}

/// A text does not end before it begins.
pub proof fn lemma_text_ahead(b: Seq<u8>, i: int)
    ensures
        text_end(b, i) >= i,
    decreases b.len() - i,
{
    if 0 <= i < b.len() && b[i] != LESS && b[i] != AND {
        lemma_text_ahead(b, i + 1);
    }
}

/// Whether the content of a date, of which `seen` is known and the rest begins at `i`, is wild. The
/// reader leaves out comments, CDATA sections and processing instructions. A date with a reference
/// or a document type in it counts as wild; one that is not closed is never looked at.
pub open spec fn is_wild_content(b: Seq<u8>, i: int, seen: Seq<u8>) -> bool
    decreases b.len() - i,
{
    let e = text_end(b, i);
    if e >= b.len() {
        false
    } else {
        let text = seen + b.subrange(i, e);
        let last = last_of(b, e);
        if b[e] == AND {
            true
        } else {
            proof {
                lemma_text_ahead(b, i);
                lemma_last_ahead(b, e);
            }
            match kind_of(b, e) {
                Kind::End => is_wild(text),
                Kind::Start | Kind::Broken => false,
                Kind::DocType => true,
                _ => last < b.len() && is_wild_content(b, last + 1, text),
            }
        }
    }
}

/// Whether the word `date` stands at `i`.
pub open spec fn is_word_date(b: Seq<u8>, i: int) -> bool {
    b[i] == 100 && b[i + 1] == 97 && b[i + 2] == 116 && b[i + 3] == 101
}

/// The first white space from `i` on and before `end`, or `end`.
pub open spec fn name_end(b: Seq<u8>, i: int, end: int) -> int
    decreases end - i,
{
    if i < end && !is_blank(b[i]) {
        name_end(b, i + 1, end)
    } else {
        i
    }
}

/// Whether the start tag from `p` to `last` opens a date: its name is `date`, with or without a
/// prefix, and it does not also end the element.
pub open spec fn opens_date(b: Seq<u8>, p: int, last: int) -> bool {
    let e = name_end(b, p + 1, last);
    &&& b[last - 1] != SLASH
    &&& e - p > 4
    &&& is_word_date(b, e - 4)
    &&& e - p == 5 || b[e - 5] == COLON
}

/// Whether the name of a date's start tag could begin at `k`, if there is a tag.
pub open spec fn may_name_date(b: Seq<u8>, k: int) -> bool {
    &&& 0 < k
    &&& k + 4 < b.len()
    &&& b[k - 1] == LESS || b[k - 1] == COLON
    &&& is_word_date(b, k)
    &&& b[k + 4] == MORE || is_blank(b[k + 4])
}

/// Whether a date from `i` on is wild. Behind a document type with declarations of its own, where
/// it is not told what is a tag, every date counts as wild.
pub open spec fn wild_from(b: Seq<u8>, i: int) -> bool
    decreases b.len() - i,
{
    let p = less_from(b, i);
    let last = last_of(b, p);
    if p >= b.len() || last >= b.len() {
        false
    } else if kind_of(b, p) == Kind::DocType && b[last] == BRACKET {
        exists|k: int| last <= k < b.len() && #[trigger] may_name_date(b, k)
    } else {
        proof {
            lemma_less_ahead(b, i);
            lemma_last_ahead(b, p);
        }
        ||| kind_of(b, p) == Kind::Start && opens_date(b, p, last) && is_wild_content(
            b,
            last + 1,
            Seq::empty(),
        )
        ||| wild_from(b, last + 1)
    }
}

/// Whether a property list holds a date that may lie outside what a clock can hold.
pub open spec fn holds_wild_date(b: Seq<u8>) -> bool {
    wild_from(b, 0)
}

fn blank(c: u8) -> (r: bool)
    ensures
        r == is_blank(c),
{
    c == SPACE || c == TAB || c == LINE_FEED || c == RETURN
}

fn kind(b: &[u8], p: usize) -> (r: Kind)
    requires
        p < b@.len(),
    ensures
        r == kind_of(b@, p as int),
{
    let rest: usize = b.len() - p;
    if rest < 2 {
        Kind::Broken
    } else if b[p + 1] == SLASH {
        Kind::End
    } else if b[p + 1] == ASK {
        Kind::Instruction
    } else if b[p + 1] != BANG {
        Kind::Start
    } else if rest < 3 {
        Kind::Broken
    } else if b[p + 2] == DASH {
        Kind::Comment
    } else if b[p + 2] == BRACKET {
        Kind::CData
    } else if b[p + 2] == CAPITAL_D || b[p + 2] == SMALL_D {
        Kind::DocType
    } else {
        Kind::Broken
    }
}

fn less(b: &[u8], from: usize) -> (r: usize)
    requires
        from <= b@.len(),
    ensures
        r == less_from(b@, from as int),
        from <= r <= b@.len(),
{
    let n: usize = b.len();
    let mut i: usize = from;
    while i < n && b[i] != LESS
        invariant
            n == b@.len(),
            from <= i <= n,
            less_from(b@, from as int) == less_from(b@, i as int),
        decreases n - i,
    {
        i = i + 1;
    }
    i
}

fn unquoted(b: &[u8], from: usize, stop: u8) -> (r: Option<usize>)
    requires
        from <= b@.len(),
    ensures
        match r {
            Some(g) => g == unquoted_from(b@, from as int, None, stop) && from <= g < b@.len(),
            None => unquoted_from(b@, from as int, None, stop) >= b@.len(),
        },
{
    let n: usize = b.len();
    let mut quote: Option<u8> = None;
    let mut i: usize = from;
    while i < n
        invariant
            n == b@.len(),
            from <= i <= n,
            unquoted_from(b@, from as int, None, stop) == unquoted_from(
                b@,
                i as int,
                quote,
                stop,
            ),
        decreases n - i,
    {
        match quote {
            Some(q) => {
                if b[i] == q {
                    quote = None;
                }
            },
            None => {
                if b[i] == MORE || b[i] == stop {
                    return Some(i);
                }
                if b[i] == QUOTE || b[i] == APOSTROPHE {
                    quote = Some(b[i]);
                }
            },
        }
        i = i + 1;
    }
    None
}

fn run(b: &[u8], from: usize, c: u8, twice: bool) -> (r: Option<usize>)
    requires
        2 <= from,
    ensures
        match r {
            Some(g) => g == run_from(
                b@,
                from as int,
                c,
                if twice {
                    2
                } else {
                    1
                },
            ) && from <= g < b@.len(),
            None => run_from(
                b@,
                from as int,
                c,
                if twice {
                    2
                } else {
                    1
                },
            ) >= b@.len(),
        },
{
    let ghost times: int = if twice {
        2
    } else {
        1
    };
    let n: usize = b.len();
    let mut i: usize = from;
    while i < n
        invariant
            n == b@.len(),
            2 <= from <= i,
            times == (if twice {
                2int
            } else {
                1
            }),
            run_from(b@, from as int, c, times) == run_from(b@, i as int, c, times),
        decreases n - i,
    {
        if b[i] == MORE && b[i - 1] == c && (!twice || b[i - 2] == c) {
            return Some(i);
        }
        i = i + 1;
    }
    None
}

fn last(b: &[u8], p: usize) -> (r: Option<usize>)
    requires
        p < b@.len(),
    ensures
        match r {
            Some(g) => g == last_of(b@, p as int) && p < g < b@.len(),
            None => last_of(b@, p as int) >= b@.len(),
        },
{
    proof {
        lemma_run_ahead(b@, p + 6, DASH, 2);
        lemma_run_ahead(b@, p + 4, END_BRACKET, 2);
    }
    let rest: usize = b.len() - p;
    match kind(b, p) {
        Kind::Start | Kind::End => unquoted(b, p + 1, MORE),
        Kind::Comment => if rest > 6 {
            run(b, p + 6, DASH, true)
        } else {
            None
        },
        Kind::CData => if rest > 4 {
            run(b, p + 4, END_BRACKET, true)
        } else {
            None
        },
        Kind::Instruction => run(b, p + 2, ASK, false),
        Kind::DocType => unquoted(b, p + 2, BRACKET),
        Kind::Broken => None,
    }
}

fn count_less(b: &[u8], from: usize) -> (r: usize)
    requires
        from <= b@.len(),
    ensures
        r == less_count(b@, from as int),
        r <= b@.len() - from,
{
    let n: usize = b.len();
    let mut i: usize = n;
    let mut count: usize = 0;
    while i > from
        invariant
            n == b@.len(),
            from <= i <= n,
            count == less_count(b@, i as int),
            count <= n - i,
        decreases i,
    {
        i = i - 1;
        if b[i] == LESS {
            count = count + 1;
        }
    }
    count
}

/// A bound on how many elements of an XML document are open at once.
pub fn nesting(b: &[u8]) -> (r: usize)
    ensures
        r == nesting_bound(b@),
{
    let mut i: usize = 0;
    let mut open: usize = 0;
    let mut most: usize = 0;
    loop
        invariant
            i <= b@.len(),
            open <= i,
            most <= b@.len(),
            nesting_bound(b@) == nesting_from(b@, i as int, open as nat, most as nat),
        decreases b@.len() - i,
    {
        let p: usize = less(b, i);
        if p == b.len() {
            return most;
        }
        let g: usize = match last(b, p) {
            Some(g) => g,
            None => return most,
        };
        match kind(b, p) {
            Kind::Start => {
                if most < open + 1 {
                    most = open + 1;
                }
                if b[g - 1] != SLASH {
                    open = open + 1;
                }
            },
            Kind::End => {
                if open > 0 {
                    open = open - 1;
                }
            },
            Kind::DocType => {
                if b[g] == BRACKET {
                    let bound: usize = open + count_less(b, g);
                    return if most < bound {
                        bound
                    } else {
                        most
                    };
                }
            },
            _ => {},
        }
        i = g + 1;
    }
}

fn digit(c: u8) -> (r: bool)
    ensures
        r == is_digit(c),
{
    ZERO <= c && c <= NINE
}

fn two(b: &[u8], i: usize) -> (r: u32)
    requires
        i + 1 < b@.len(),
        is_digit(b@[i as int]),
        is_digit(b@[i + 1]),
    ensures
        r == pair(b@, i as int),
        r <= 99,
{
    (b[i] - ZERO) as u32 * 10 + (b[i + 1] - ZERO) as u32
}

fn later(s: &[u8], c: u8) -> (r: bool)
    requires
        s@.len() >= 10,
    ensures
        r == holds_later(s@, c),
{
    let mut i: usize = 10;
    while i < s.len()
        invariant
            10 <= i <= s@.len(),
            forall|k: int| 10 <= k < i ==> #[trigger] s@[k] != c,
        decreases s@.len() - i,
    {
        if s[i] == c {
            return true;
        }
        i = i + 1;
    }
    false
}

fn wild(s: &[u8]) -> (r: bool)
    ensures
        r == is_wild(s@),
{
    if s.len() < 10 {
        return false;
    }
    if !(digit(s[0]) && digit(s[1]) && digit(s[2]) && digit(s[3]) && s[4] == DASH && digit(s[5])
        && digit(s[6]) && s[7] == DASH && digit(s[8]) && digit(s[9])) {
        return false;
    }
    let year: u32 = two(s, 0) * 100 + two(s, 2);
    let month: u32 = two(s, 5);
    let day: u32 = two(s, 8);
    if year < 1601 {
        return true;
    }
    if year == 1601 && month == 1 && day == 1 {
        later(s, PLUS)
    } else if year == 9999 && month == 12 && day == 31 {
        later(s, DASH)
    } else {
        false
    }
}

fn wild_content(b: &[u8], from: usize) -> (r: bool)
    requires
        from <= b@.len(),
    ensures
        r == is_wild_content(b@, from as int, Seq::empty()),
{
    let n: usize = b.len();
    let mut seen: Vec<u8> = Vec::new();
    let mut i: usize = from;
    loop
        invariant
            n == b@.len(),
            i <= n,
            is_wild_content(b@, from as int, Seq::empty()) == is_wild_content(
                b@,
                i as int,
                seen@,
            ),
        decreases n - i,
    {
        let ghost before = seen@;
        let mut e: usize = i;
        while e < n && b[e] != LESS && b[e] != AND
            invariant
                n == b@.len(),
                i <= e <= n,
                text_end(b@, i as int) == text_end(b@, e as int),
                seen@ =~= before + b@.subrange(i as int, e as int),
            decreases n - e,
        {
            seen.push(b[e]);
            e = e + 1;
        }
        if e == n {
            return false;
        }
        if b[e] == AND {
            return true;
        }
        match kind(b, e) {
            Kind::End => return wild(seen.as_slice()),
            Kind::Start | Kind::Broken => return false,
            Kind::DocType => return true,
            _ => {},
        }
        i = match last(b, e) {
            Some(g) => g + 1,
            None => return false,
        };
    }
}

fn word_date(b: &[u8], i: usize) -> (r: bool)
    requires
        i + 4 <= b@.len(),
    ensures
        r == is_word_date(b@, i as int),
{
    b[i] == 100 && b[i + 1] == 97 && b[i + 2] == 116 && b[i + 3] == 101
}

fn date_opens(b: &[u8], p: usize, last: usize) -> (r: bool)
    requires
        p < last < b@.len(),
    ensures
        r == opens_date(b@, p as int, last as int),
{
    let mut e: usize = p + 1;
    while e < last && !blank(b[e])
        invariant
            p < e <= last < b@.len(),
            name_end(b@, p + 1, last as int) == name_end(b@, e as int, last as int),
        decreases last - e,
    {
        e = e + 1;
    }
    b[last - 1] != SLASH && e - p > 4 && word_date(b, e - 4) && (e - p == 5 || b[e - 5] == COLON)
}

fn any_date(b: &[u8], from: usize) -> (r: bool)
    ensures
        r == (exists|k: int| from <= k < b@.len() && #[trigger] may_name_date(b@, k)),
{
    let n: usize = b.len();
    let mut k: usize = from;
    while k < n
        invariant
            n == b@.len(),
            from <= k,
            forall|j: int| from <= j < k ==> !(#[trigger] may_name_date(b@, j)),
        decreases n - k,
    {
        if 0 < k && n - k > 4 && (b[k - 1] == LESS || b[k - 1] == COLON) && word_date(b, k) && (b[k
            + 4] == MORE || blank(b[k + 4])) {
            assert(may_name_date(b@, k as int));
            return true;
        }
        k = k + 1;
    }
    false
}

/// Whether a property list holds a date that may lie outside what a clock can hold.
pub fn has_wild_date(b: &[u8]) -> (r: bool)
    ensures
        r == holds_wild_date(b@),
{
    let mut i: usize = 0;
    loop
        invariant
            i <= b@.len(),
            holds_wild_date(b@) == wild_from(b@, i as int),
        decreases b@.len() - i,
    {
        let p: usize = less(b, i);
        if p == b.len() {
            return false;
        }
        let g: usize = match last(b, p) {
            Some(g) => g,
            None => return false,
        };
        match kind(b, p) {
            Kind::DocType => {
                if b[g] == BRACKET {
                    return any_date(b, g);
                }
            },
            Kind::Start => {
                if date_opens(b, p, g) && wild_content(b, g + 1) {
                    return true;
                }
            },
            _ => {},
        }
        i = g + 1;
    }
}

} // verus!
