//! What of the text of a STEP file could not be read: whole numbers that are
//! too large to be held, and brackets that are nested too deep.

use vstd::prelude::*;
use vstd::slice::slice_subrange;

use crate::text;
use crate::text::{chars_of, leading_digits, parse_digits};

verus! {

/// The largest number of brackets that may be open at a time. The parser calls
/// itself for each of them and takes more than eight kibibytes of stack for it,
/// of which a thread has two mebibytes unless it asks for more: with 128 open
/// brackets that was seen to be enough, with 256 it was not. Half of what is
/// enough leaves room for the callers and for slower builds.
pub const MAX_NESTING: usize = 64;

/// What a place in the text belongs to.
#[derive(Clone, Copy, Debug, PartialEq, Eq, Structural)]
pub enum Place {
    Plain,
    Quoted,
    /// In a resource between angle brackets.
    Resource,
    /// At the star that ends the opening mark of a comment.
    CommentStart,
    Comment,
    /// At the slash that ends the closing mark of a comment.
    CommentEnd,
    /// Behind the start of the mark that ends the exchange structure. What
    /// follows that is not read.
    Behind,
}

/// What is known at a place in the text from what stands before it.
#[derive(Clone, Copy, Debug, PartialEq, Eq, Structural)]
pub struct Scan {
    pub place: Place,
    /// Between a resource and the next semicolon, where the item of an anchor
    /// stands.
    pub in_anchor: bool,
    /// The number of brackets that are open.
    pub depth: usize,
}

/// At `i` stands the mark that ends the exchange structure.
pub open spec fn ends_exchange(s: Seq<char>, i: int) -> bool {
    "END-ISO-10303-21;"@.is_prefix_of(s.skip(i))
}

/// What is known behind the character at `i`.
pub open spec fn next_scan(scan: Scan, s: Seq<char>, i: int) -> Scan {
    match scan.place {
        Place::Plain => if ends_exchange(s, i) {
            Scan { place: Place::Behind, ..scan }
        } else if s[i] == '\'' {
            Scan { place: Place::Quoted, ..scan }
        } else if s[i] == '<' {
            Scan { place: Place::Resource, ..scan }
        } else if s[i] == '/' && i + 1 < s.len() && s[i + 1] == '*' {
            Scan { place: Place::CommentStart, ..scan }
        } else if s[i] == ';' {
            Scan { in_anchor: false, ..scan }
        } else if s[i] == '(' && scan.depth < usize::MAX {
            Scan { depth: (scan.depth + 1) as usize, ..scan }
        } else if s[i] == ')' && scan.depth > 0 {
            Scan { depth: (scan.depth - 1) as usize, ..scan }
        } else {
            scan
        },
        Place::Quoted => if s[i] == '\'' {
            Scan { place: Place::Plain, ..scan }
        } else {
            scan
        },
        Place::Resource => if s[i] == '>' {
            Scan { place: Place::Plain, in_anchor: true, ..scan }
        } else {
            scan
        },
        Place::CommentStart => Scan { place: Place::Comment, ..scan },
        Place::Comment => if s[i] == '*' && i + 1 < s.len() && s[i + 1] == '/' {
            Scan { place: Place::CommentEnd, ..scan }
        } else {
            scan
        },
        Place::CommentEnd => Scan { place: Place::Plain, ..scan },
        Place::Behind => scan,
    }
}

pub open spec fn scan_at(s: Seq<char>, i: int) -> Scan
    decreases i,
{
    if i <= 0 {
        Scan { place: Place::Plain, in_anchor: false, depth: 0 }
    } else {
        next_scan(scan_at(s, i - 1), s, i - 1)
    }
}

pub open spec fn starts_number(s: Seq<char>, i: int) -> bool {
    0 <= i < s.len() && text::is_digit(s[i]) && (i == 0 || !text::is_digit(s[i - 1]))
}

/// The digits from `i` on are a number of at most 63 bits.
pub open spec fn is_small(s: Seq<char>, i: int) -> bool {
    text::digits_value(s.skip(i).take(text::digit_run(s.skip(i)))) <= i64::MAX
}

/// A character that may stand between the mark of an exponent and its digits.
pub open spec fn is_sign_or_gap(c: char) -> bool {
    c == ' ' || c == '\t' || c == '\r' || c == '\n' || c == '+' || c == '-'
}

/// A character of a keyword or a name that is no digit.
pub open spec fn is_letter(c: char) -> bool {
    'A' <= c <= 'Z' || 'a' <= c <= 'z' || c == '_'
}

/// The number of characters before `i` with signs and gaps behind them left
/// out.
pub open spec fn before_sign(s: Seq<char>, i: int) -> int
    decreases i,
{
    if i > 0 && is_sign_or_gap(s[i - 1]) {
        before_sign(s, i - 1)
    } else {
        i
    }
}

/// The number of characters before `i` with digits behind them left out.
pub open spec fn before_digits(s: Seq<char>, i: int) -> int
    decreases i,
{
    if i > 0 && text::is_digit(s[i - 1]) {
        before_digits(s, i - 1)
    } else {
        i
    }
}

/// The characters before `i` end as a real number does up to its point and the
/// digits behind it.
pub open spec fn ends_real(s: Seq<char>, i: int) -> bool {
    let point = before_digits(s, i);
    point >= 2 && s[point - 1] == '.' && text::is_digit(s[point - 2])
}

/// What stands at `i` follows the mark of an exponent, with or without a sign.
pub open spec fn follows_exponent_mark(s: Seq<char>, i: int) -> bool {
    let mark = before_sign(s, i);
    mark >= 1 && s[mark - 1] == 'E' && ends_real(s, mark - 1)
}

/// The digits from `i` on belong to a name, or to a real number but not to its
/// exponent. The item of an anchor is read as a whole number first.
pub open spec fn is_no_integer(s: Seq<char>, i: int, in_anchor: bool) -> bool {
    let end = i + text::digit_run(s.skip(i));
    ||| i > 0 && (s[i - 1] == '.' || s[i - 1] == '#' || s[i - 1] == '@')
    ||| i > 0 && is_letter(s[i - 1]) && !follows_exponent_mark(s, i)
    ||| end < s.len() && s[end] == '.' && !in_anchor && !follows_exponent_mark(s, i)
}

pub open spec fn number_fits(s: Seq<char>, i: int) -> bool {
    let scan = scan_at(s, i);
    scan.place == Place::Plain ==> is_no_integer(s, i, scan.in_anchor) || is_small(s, i)
}

/// No whole number and no exponent of the text is too large to be read.
pub open spec fn integers_fit(s: Seq<char>) -> bool {
    forall|i: int| #[trigger] starts_number(s, i) ==> number_fits(s, i)
}

/// Nowhere in the text are too many brackets open.
pub open spec fn is_shallow(s: Seq<char>) -> bool {
    forall|i: int| 0 <= i <= s.len() ==> (#[trigger] scan_at(s, i)).depth <= MAX_NESTING
}

/// The text begins as an exchange structure does. Any other is refused at
/// once.
pub open spec fn begins_exchange(s: Seq<char>) -> bool {
    "ISO-10303-21;"@.is_prefix_of(s)
}

/// A parser can go through the text: either it stops at the beginning, or all
/// numbers can be held and the nesting is within bounds.
pub open spec fn readable(s: Seq<char>) -> bool {
    begins_exchange(s) ==> integers_fit(s) && is_shallow(s)
}

/// Tells whether the text begins with the mark.
fn starts_with(s: &[char], mark: &str) -> (r: bool)
    ensures
        r == mark@.is_prefix_of(s@),
{
    let mut i: usize = 0;
    for c in it: mark.chars()
        invariant
            it.seq() == mark@,
            i == it.index(),
            i <= s@.len(),
            forall|k: int| 0 <= k < i ==> mark@[k] == #[trigger] s@[k],
    {
        if i >= s.len() {
            return false;
        }
        if s[i] != c {
            assert(mark@.len() <= s@.len() ==> s@.take(mark@.len() as int)[i as int]
                != mark@[i as int]);
            return false;
        }
        i += 1;
    }
    assert(s@.take(mark@.len() as int) =~= mark@);
    true
}

fn is_end(s: &[char], i: usize) -> (r: bool)
    requires
        i < s@.len(),
    ensures
        r == ends_exchange(s@, i as int),
{
    let rest = slice_subrange(s, i, s.len());
    assert(rest@ =~= s@.skip(i as int));
    starts_with(rest, "END-ISO-10303-21;")
}

fn scan_after(scan: Scan, s: &[char], i: usize) -> (r: Scan)
    requires
        i < s@.len(),
    ensures
        r == next_scan(scan, s@, i as int),
{
    proof {
        reveal_strlit("END-ISO-10303-21;");
        if ends_exchange(s@, i as int) {
            let mark = "END-ISO-10303-21;"@;
            assert(s@.skip(i as int).take(mark.len() as int)[0] == mark[0]);
        }
    }
    match scan.place {
        Place::Plain => {
            if s[i] == 'E' && is_end(s, i) {
                Scan { place: Place::Behind, ..scan }
            } else if s[i] == '\'' {
                Scan { place: Place::Quoted, ..scan }
            } else if s[i] == '<' {
                Scan { place: Place::Resource, ..scan }
            } else if s[i] == '/' && i < s.len() - 1 && s[i + 1] == '*' {
                Scan { place: Place::CommentStart, ..scan }
            } else if s[i] == ';' {
                Scan { in_anchor: false, ..scan }
            } else if s[i] == '(' && scan.depth < usize::MAX {
                Scan { depth: scan.depth + 1, ..scan }
            } else if s[i] == ')' && scan.depth > 0 {
                Scan { depth: scan.depth - 1, ..scan }
            } else {
                scan
            }
        },
        Place::Quoted => {
            if s[i] == '\'' {
                Scan { place: Place::Plain, ..scan }
            } else {
                scan
            }
        },
        Place::Resource => {
            if s[i] == '>' {
                Scan { place: Place::Plain, in_anchor: true, ..scan }
            } else {
                scan
            }
        },
        Place::CommentStart => Scan { place: Place::Comment, ..scan },
        Place::Comment => {
            if s[i] == '*' && i < s.len() - 1 && s[i + 1] == '/' {
                Scan { place: Place::CommentEnd, ..scan }
            } else {
                scan
            }
        },
        Place::CommentEnd => Scan { place: Place::Plain, ..scan },
        Place::Behind => scan,
    }
}

fn is_after_exponent_mark(s: &[char], i: usize) -> (r: bool)
    requires
        i <= s@.len(),
    ensures
        r == follows_exponent_mark(s@, i as int),
{
    let mut mark: usize = i;
    while mark > 0 && (s[mark - 1] == ' ' || s[mark - 1] == '\t' || s[mark - 1] == '\r' || s[mark
        - 1] == '\n' || s[mark - 1] == '+' || s[mark - 1] == '-')
        invariant
            mark <= i <= s@.len(),
            before_sign(s@, mark as int) == before_sign(s@, i as int),
        decreases mark,
    {
        mark -= 1;
    }
    if mark == 0 || s[mark - 1] != 'E' {
        return false;
    }
    let mut point: usize = mark - 1;
    while point > 0 && '0' <= s[point - 1] && s[point - 1] <= '9'
        invariant
            point < mark <= s@.len(),
            before_digits(s@, point as int) == before_digits(s@, mark - 1),
        decreases point,
    {
        point -= 1;
    }
    point >= 2 && s[point - 1] == '.' && '0' <= s[point - 2] && s[point - 2] <= '9'
}

fn number_at_fits(scan: Scan, s: &[char], i: usize) -> (r: bool)
    requires
        starts_number(s@, i as int),
        scan == scan_at(s@, i as int),
    ensures
        r == number_fits(s@, i as int),
{
    if scan.place != Place::Plain {
        return true;
    }
    let rest = slice_subrange(s, i, s.len());
    assert(rest@ =~= s@.skip(i as int));
    let n: usize = leading_digits(rest);
    if i > 0 {
        let c: char = s[i - 1];
        if c == '.' || c == '#' || c == '@' {
            return true;
        }
        let letter = 'A' <= c && c <= 'Z' || 'a' <= c && c <= 'z' || c == '_';
        if letter && !is_after_exponent_mark(s, i) {
            return true;
        }
    }
    if n < rest.len() && rest[n] == '.' && !scan.in_anchor && !is_after_exponent_mark(s, i) {
        return true;
    }
    let run = slice_subrange(rest, 0, n);
    assert(run@ =~= rest@.take(n as int));
    proof {
        text::lemma_digit_run(rest@);
        text::lemma_digit_run(rest@.drop_first());
        text::lemma_digits_value_grows(run@, 0);
        assert(rest@[0] == s@[i as int]);
        assert(n < rest@.len() ==> rest@[n as int] == s@[i + n]);
    }
    match parse_digits(run) {
        Some(value) => value <= 9223372036854775807,
        None => false,
    }
}

/// Tells whether a parser can go through the text.
pub fn is_readable(raw: &str) -> (r: bool)
    ensures
        r == readable(raw@),
{
    let s = chars_of(raw);
    if !starts_with(s.as_slice(), "ISO-10303-21;") {
        return true;
    }
    let mut scan = Scan { place: Place::Plain, in_anchor: false, depth: 0 };
    let mut i: usize = 0;
    while i < s.len()
        invariant
            i <= s.len(),
            s@ == raw@,
            begins_exchange(raw@),
            scan == scan_at(s@, i as int),
            forall|k: int| k < i && #[trigger] starts_number(s@, k) ==> number_fits(s@, k),
            forall|k: int| 0 <= k <= i ==> (#[trigger] scan_at(s@, k)).depth <= MAX_NESTING,
        decreases s.len() - i,
    {
        let c: char = s[i];
        let digit = '0' <= c && c <= '9';
        if digit && (i == 0 || !('0' <= s[i - 1] && s[i - 1] <= '9')) {
            assert(starts_number(s@, i as int));
            if !number_at_fits(scan, s.as_slice(), i) {
                return false;
            }
        }
        scan = scan_after(scan, s.as_slice(), i);
        i += 1;
        if scan.depth > MAX_NESTING {
            assert(scan_at(s@, i as int).depth > MAX_NESTING);
            return false;
        }
    }
    true
}

} // verus!
