//! What of a text counts when its numbers and brackets are looked at.

use vstd::prelude::*;

use crate::numbers;
use crate::numbers::{Place, Scan};
use crate::text;

verus! {

proof fn lemma_no_end_at(s: Seq<char>, i: int)
    requires
        0 <= i < s.len(),
        s[i] != 'E',
    ensures
        !numbers::ends_exchange(s, i),
{
    reveal_strlit("END-ISO-10303-21;");
    let mark = "END-ISO-10303-21;"@;
    assert(mark[0] == 'E');
    if mark.is_prefix_of(s.skip(i)) {
        assert(s.skip(i)[0] == mark[0]);
    }
}

proof fn lemma_quoted(s: Seq<char>, i: int, j: int)
    requires
        0 <= i < j <= s.len(),
        numbers::scan_at(s, i).place == Place::Plain,
        s[i] == '\'',
        forall|k: int| i < k < j ==> #[trigger] s[k] != '\'',
    ensures
        numbers::scan_at(s, j) == (Scan { place: Place::Quoted, ..numbers::scan_at(s, i) }),
    decreases j,
{
    if j == i + 1 {
        lemma_no_end_at(s, i);
    } else {
        lemma_quoted(s, i, j - 1);
        assert(s[j - 1] != '\'');
    }
}

/// Behind a quoted text all is as it was before it: no bracket, number or mark
/// inside counts.
pub proof fn law_quoted_text_is_passed_over(s: Seq<char>, i: int, j: int)
    requires
        0 <= i < j < s.len(),
        numbers::scan_at(s, i).place == Place::Plain,
        s[i] == '\'',
        forall|k: int| i < k < j ==> #[trigger] s[k] != '\'',
        s[j] == '\'',
    ensures
        numbers::scan_at(s, j + 1) == numbers::scan_at(s, i),
        forall|k: int| i < k <= j ==> numbers::number_fits(s, k),
{
    lemma_quoted(s, i, j);
    assert forall|k: int| i < k <= j implies numbers::number_fits(s, k) by {
        lemma_quoted(s, i, k);
    }
}

proof fn lemma_comment(s: Seq<char>, i: int, j: int)
    requires
        0 <= i,
        i + 2 <= j < s.len(),
        numbers::scan_at(s, i).place == Place::Plain,
        s[i] == '/',
        s[i + 1] == '*',
        forall|k: int| i + 2 <= k < j ==> !(#[trigger] s[k] == '*' && s[k + 1] == '/'),
    ensures
        numbers::scan_at(s, j) == (Scan { place: Place::Comment, ..numbers::scan_at(s, i) }),
    decreases j,
{
    lemma_no_end_at(s, i);
    assert(numbers::scan_at(s, i + 1) == (Scan {
        place: Place::CommentStart,
        ..numbers::scan_at(s, i)
    }));
    assert(numbers::scan_at(s, i + 2) == (Scan {
        place: Place::Comment,
        ..numbers::scan_at(s, i)
    }));
    if j > i + 2 {
        lemma_comment(s, i, j - 1);
        assert(!(s[j - 1] == '*' && s[j] == '/'));
    }
}

/// Behind a comment all is as it was before it.
pub proof fn law_comments_are_passed_over(s: Seq<char>, i: int, j: int)
    requires
        0 <= i,
        i + 2 <= j,
        j + 1 < s.len(),
        numbers::scan_at(s, i).place == Place::Plain,
        s[i] == '/',
        s[i + 1] == '*',
        forall|k: int| i + 2 <= k < j ==> !(#[trigger] s[k] == '*' && s[k + 1] == '/'),
        s[j] == '*',
        s[j + 1] == '/',
    ensures
        numbers::scan_at(s, j + 2) == numbers::scan_at(s, i),
        forall|k: int| i + 2 <= k <= j ==> numbers::number_fits(s, k),
{
    lemma_comment(s, i, j);
    assert(numbers::scan_at(s, j + 1) == (Scan {
        place: Place::CommentEnd,
        ..numbers::scan_at(s, i)
    }));
    assert forall|k: int| i + 2 <= k <= j implies numbers::number_fits(s, k) by {
        lemma_comment(s, i, k);
    }
}

/// The text holds nothing but brackets and what neither quotes nor comments
/// nor ends anything.
pub open spec fn is_simple(s: Seq<char>) -> bool {
    forall|i: int|
        0 <= i < s.len() ==> #[trigger] s[i] != '\'' && s[i] != '<' && s[i] != '/' && s[i] != 'E'
}

/// How many opening brackets the first characters have more than closing ones.
pub open spec fn open_brackets(s: Seq<char>, i: int) -> int
    decreases i,
{
    if i <= 0 {
        0
    } else if s[i - 1] == '(' {
        open_brackets(s, i - 1) + 1
    } else if s[i - 1] == ')' {
        open_brackets(s, i - 1) - 1
    } else {
        open_brackets(s, i - 1)
    }
}

/// In a text without quotes, comments and resources in which no bracket is
/// closed that was not opened, the depth is the number of open brackets.
pub proof fn law_open_brackets_are_counted(s: Seq<char>, i: int)
    requires
        0 <= i <= s.len(),
        is_simple(s),
        s.len() < usize::MAX,
        forall|k: int| 0 <= k <= i ==> 0 <= #[trigger] open_brackets(s, k),
    ensures
        numbers::scan_at(s, i).place == Place::Plain,
        !numbers::scan_at(s, i).in_anchor,
        numbers::scan_at(s, i).depth == open_brackets(s, i),
        open_brackets(s, i) <= i,
    decreases i,
{
    if i > 0 {
        law_open_brackets_are_counted(s, i - 1);
        assert(s[i - 1] != '\'');
        lemma_no_end_at(s, i - 1);
        assert(0 <= open_brackets(s, i));
    }
}

/// Nothing behind the mark that ends the exchange structure counts.
pub proof fn law_nothing_counts_behind_the_end(s: Seq<char>, i: int, j: int)
    requires
        0 <= i < j <= s.len(),
        numbers::scan_at(s, i).place == Place::Plain,
        "END-ISO-10303-21;"@.is_prefix_of(s.skip(i)),
    ensures
        numbers::number_fits(s, j),
        numbers::scan_at(s, j).depth == numbers::scan_at(s, i).depth,
        numbers::scan_at(s, j).place == Place::Behind,
    decreases j,
{
    if j > i + 1 {
        law_nothing_counts_behind_the_end(s, i, j - 1);
    }
}

/// A whole number between commas or brackets can be read if and only if it has
/// at most 63 bits.
pub proof fn law_whole_numbers_are_bounded(s: Seq<char>, i: int, n: nat)
    requires
        0 < i,
        i + text::decimal(n).len() < s.len(),
        s.subrange(i, i + text::decimal(n).len()) == text::decimal(n),
        s[i - 1] == '(' || s[i - 1] == ',',
        s[i + text::decimal(n).len()] == ')' || s[i + text::decimal(n).len()] == ',',
        numbers::scan_at(s, i).place == Place::Plain,
    ensures
        numbers::number_fits(s, i) <==> n < 0x8000_0000_0000_0000,
{
    let d = text::decimal(n);
    let rest = s.skip(i);
    text::law_decimal_reads_back(n);
    assert forall|k: int| 0 <= k < d.len() implies text::is_digit(#[trigger] rest[k]) by {
        assert(rest[k] == s.subrange(i, i + d.len())[k]);
        assert(text::is_digit(d[k]));
    }
    assert(rest[d.len() as int] == s[i + d.len()]);
    text::lemma_digit_run_unique(rest, d.len() as int);
    assert(rest.take(d.len() as int) =~= s.subrange(i, i + d.len()));
}

/// Numbers of entities and numbers with a point before them are not bounded.
pub proof fn law_names_are_not_bounded(s: Seq<char>, i: int)
    requires
        0 < i < s.len(),
        s[i - 1] == '#' || s[i - 1] == '@' || s[i - 1] == '.',
    ensures
        numbers::number_fits(s, i),
{
}

/// The part of a real number before its point is not bounded outside of anchors.
pub proof fn law_real_numbers_are_not_bounded(s: Seq<char>, i: int, n: int)
    requires
        0 < i,
        0 < n,
        i + n < s.len(),
        s[i - 1] == '(' || s[i - 1] == ',',
        forall|k: int| i <= k < i + n ==> text::is_digit(#[trigger] s[k]),
        s[i + n] == '.',
        !numbers::scan_at(s, i).in_anchor,
    ensures
        numbers::number_fits(s, i),
{
    let rest = s.skip(i);
    assert forall|k: int| 0 <= k < n implies text::is_digit(#[trigger] rest[k]) by {
        assert(text::is_digit(s[i + k]));
    }
    assert(rest[n] == s[i + n]);
    text::lemma_digit_run_unique(rest, n);
    assert(numbers::before_sign(s, i) == i);
}

/// An exponent is bounded as a whole number is.
pub proof fn law_exponents_are_bounded(s: Seq<char>, i: int, n: nat)
    requires
        3 <= i,
        i + text::decimal(n).len() < s.len(),
        s.subrange(i, i + text::decimal(n).len()) == text::decimal(n),
        s[i - 1] == 'E',
        s[i - 2] == '.',
        text::is_digit(s[i - 3]),
        s[i + text::decimal(n).len()] == ')' || s[i + text::decimal(n).len()] == ',',
        numbers::scan_at(s, i).place == Place::Plain,
    ensures
        numbers::number_fits(s, i) <==> n < 0x8000_0000_0000_0000,
{
    let d = text::decimal(n);
    let rest = s.skip(i);
    text::law_decimal_reads_back(n);
    assert forall|k: int| 0 <= k < d.len() implies text::is_digit(#[trigger] rest[k]) by {
        assert(rest[k] == s.subrange(i, i + d.len())[k]);
        assert(text::is_digit(d[k]));
    }
    assert(rest[d.len() as int] == s[i + d.len()]);
    text::lemma_digit_run_unique(rest, d.len() as int);
    assert(rest.take(d.len() as int) =~= s.subrange(i, i + d.len()));
    assert(numbers::before_sign(s, i) == i);
    assert(numbers::before_digits(s, i - 1) == i - 1);
}

} // verus!
