//! What is written in a STEP file is what is read from it: real numbers,
//! references and whole entities, put together from their characters.

use vstd::prelude::*;

use crate::parsing;
use crate::text;

verus! {

/// The text consists of decimal digits.
pub open spec fn is_digits(s: Seq<char>) -> bool {
    forall|i: int| 0 <= i < s.len() ==> '0' <= #[trigger] s[i] && s[i] <= '9'
}

/// A sign, or nothing.
pub open spec fn is_sign(s: Seq<char>) -> bool {
    s == Seq::<char>::empty() || s == seq!['+'] || s == seq!['-']
}

/// Blanks, as many as there may be.
pub open spec fn is_blank(s: Seq<char>) -> bool {
    forall|i: int| 0 <= i < s.len() ==> #[trigger] s[i] == ' '
}

/// The parts of the text of a real number: a sign, digits, a point with digits
/// behind it, and an exponent with its mark, its sign and its digits.
pub ghost struct RealText {
    pub sign: Seq<char>,
    pub whole: Seq<char>,
    pub point: bool,
    pub fraction: Seq<char>,
    pub exponent: Option<(char, Seq<char>, Seq<char>)>,
}

impl RealText {
    pub open spec fn valid(self) -> bool {
        &&& is_sign(self.sign)
        &&& is_digits(self.whole)
        &&& is_digits(self.fraction)
        &&& !self.point ==> self.fraction.len() == 0
        &&& self.whole.len() + self.fraction.len() > 0
        &&& match self.exponent {
            Some((mark, sign, digits)) => {
                &&& mark == 'e' || mark == 'E'
                &&& is_sign(sign)
                &&& is_digits(digits)
                &&& digits.len() > 0
            },
            None => true,
        }
    }

    pub open spec fn mantissa(self) -> Seq<char> {
        self.sign + self.whole + (if self.point {
            seq!['.'] + self.fraction
        } else {
            Seq::empty()
        })
    }

    pub open spec fn power(self) -> Seq<char> {
        match self.exponent {
            Some((mark, sign, digits)) => seq![mark] + sign + digits,
            None => Seq::empty(),
        }
    }

    /// The number as it is written.
    pub open spec fn text(self) -> Seq<char> {
        self.mantissa() + self.power()
    }

    /// The number with a digit between a point and the `E` behind it.
    pub open spec fn filled(self) -> Seq<char> {
        if self.point && self.fraction.len() == 0 && self.exponent is Some && (self.exponent->0).0
            == 'E' {
            self.mantissa() + seq!['0'] + self.power()
        } else {
            self.text()
        }
    }
}

/// A point stands before an `E`.
spec fn has_gap(s: Seq<char>) -> bool {
    exists|i: int| 0 <= i < s.len() - 1 && #[trigger] s[i] == '.' && s[i + 1] == 'E'
}

proof fn lemma_no_gap(s: Seq<char>)
    requires
        !has_gap(s),
    ensures
        parsing::with_fraction_digit(s) == s,
    decreases s.len(),
{
    if s.len() > 0 {
        let rest = s.drop_first();
        if has_gap(rest) {
            let i = choose|i: int| 0 <= i < rest.len() - 1 && #[trigger] rest[i] == '.' && rest[i
                + 1] == 'E';
            assert(s[i + 1] == '.' && s[i + 2] == 'E');
        }
        lemma_no_gap(rest);
        if s.len() >= 2 {
            assert(!(s[0] == '.' && s[1] == 'E'));
        }
        assert(seq![s[0]] + rest =~= s);
    }
}

proof fn lemma_one_gap(a: Seq<char>, b: Seq<char>)
    requires
        a.len() > 0,
        a.last() == '.',
        b.len() > 0,
        b[0] == 'E',
        !has_gap(a),
        !has_gap(b),
    ensures
        parsing::with_fraction_digit(a + b) == a + seq!['0'] + b,
    decreases a.len(),
{
    let s = a + b;
    if a.len() == 1 {
        let rest = b.drop_first();
        assert(s.skip(2) =~= rest);
        if has_gap(rest) {
            let i = choose|i: int| 0 <= i < rest.len() - 1 && #[trigger] rest[i] == '.' && rest[i
                + 1] == 'E';
            assert(b[i + 1] == '.' && b[i + 2] == 'E');
        }
        lemma_no_gap(rest);
        assert(seq!['.', '0', 'E'] + rest =~= a + seq!['0'] + b);
    } else {
        let rest = a.drop_first();
        if has_gap(rest) {
            let i = choose|i: int| 0 <= i < rest.len() - 1 && #[trigger] rest[i] == '.' && rest[i
                + 1] == 'E';
            assert(a[i + 1] == '.' && a[i + 2] == 'E');
        }
        lemma_one_gap(rest, b);
        assert(!(s[0] == '.' && s[1] == 'E')) by {
            assert(s[0] == a[0] && s[1] == a[1]);
        }
        assert(s.drop_first() =~= rest + b);
        assert(seq![a[0]] + (rest + seq!['0'] + b) =~= a + seq!['0'] + b);
    }
}

proof fn lemma_trim_start_blank(before: Seq<char>, s: Seq<char>)
    requires
        is_blank(before),
        s.len() > 0,
        !text::is_space(s[0]),
    ensures
        text::trim_start(before + s) == s,
    decreases before.len(),
{
    if before.len() == 0 {
        assert(before + s =~= s);
    } else {
        let rest = before.drop_first();
        assert(is_blank(rest)) by {
            assert forall|i: int| 0 <= i < rest.len() implies #[trigger] rest[i] == ' ' by {
                assert(before[i + 1] == ' ');
            }
        }
        lemma_trim_start_blank(rest, s);
        assert((before + s).drop_first() =~= rest + s);
        assert((before + s)[0] == ' ');
    }
}

proof fn lemma_trim_end_blank(s: Seq<char>, after: Seq<char>)
    requires
        is_blank(after),
        s.len() > 0,
        !text::is_space(s.last()),
    ensures
        text::trim_end(s + after) == s,
    decreases after.len(),
{
    if after.len() == 0 {
        assert(s + after =~= s);
    } else {
        let rest = after.drop_last();
        assert(is_blank(rest)) by {
            assert forall|i: int| 0 <= i < rest.len() implies #[trigger] rest[i] == ' ' by {
                assert(after[i] == ' ');
            }
        }
        lemma_trim_end_blank(s, rest);
        assert((s + after).drop_last() =~= s + rest);
        assert((s + after).last() == after[after.len() - 1]);
    }
}

/// Blanks around a text are trimmed off, and nothing else is.
pub proof fn law_blanks_are_trimmed(before: Seq<char>, s: Seq<char>, after: Seq<char>)
    requires
        is_blank(before),
        is_blank(after),
        s.len() > 0,
        !text::is_space(s[0]),
        !text::is_space(s.last()),
    ensures
        text::trim(before + s + after) == s,
{
    let tail = s + after;
    assert(before + s + after =~= before + tail);
    lemma_trim_start_blank(before, tail);
    lemma_trim_end_blank(s, after);
}

proof fn lemma_digits_run(digits: Seq<char>, rest: Seq<char>)
    requires
        is_digits(digits),
        rest.len() > 0 ==> !('0' <= rest[0] && rest[0] <= '9'),
    ensures
        text::digit_run(digits + rest) == digits.len(),
        (digits + rest).skip(digits.len() as int) == rest,
{
    let s = digits + rest;
    assert forall|i: int| 0 <= i < digits.len() implies text::is_digit(#[trigger] s[i]) by {
        assert(s[i] == digits[i]);
    }
    text::lemma_digit_run_unique(s, digits.len() as int);
    assert(s.skip(digits.len() as int) =~= rest);
}

proof fn lemma_power_is_read(mark: char, sign: Seq<char>, digits: Seq<char>)
    requires
        mark == 'e' || mark == 'E',
        is_sign(sign),
        is_digits(digits),
        digits.len() > 0,
    ensures
        parsing::is_exponent(seq![mark] + sign + digits),
{
    let s = seq![mark] + sign + digits;
    let tail = s.drop_first();
    assert(tail =~= sign + digits);
    if sign.len() == 0 {
        assert(tail =~= digits);
        assert('0' <= digits[0] && digits[0] <= '9');
    } else {
        assert(tail.drop_first() =~= digits);
    }
    assert(parsing::without_sign(tail) == digits);
    assert forall|i: int| 0 <= i < digits.len() implies text::is_digit(#[trigger] digits[i]) by {
    }
}

proof fn lemma_unsigned(sign: Seq<char>, rest: Seq<char>)
    requires
        is_sign(sign),
        rest.len() > 0,
        rest[0] != '+',
        rest[0] != '-',
    ensures
        parsing::without_sign(sign + rest) == rest,
{
    if sign.len() == 0 {
        assert(sign + rest =~= rest);
    } else {
        assert((sign + rest).drop_first() =~= rest);
    }
}

/// A number of these parts, behind its sign, is one that can be read.
proof fn lemma_number_is_read(
    whole: Seq<char>,
    point: bool,
    fraction: Seq<char>,
    power: Seq<char>,
)
    requires
        is_digits(whole),
        is_digits(fraction),
        !point ==> fraction.len() == 0,
        whole.len() + fraction.len() > 0,
        power.len() > 0 ==> parsing::is_exponent(power),
    ensures
        parsing::is_decimal_number(
            whole + (if point {
                seq!['.'] + fraction
            } else {
                Seq::empty()
            }) + power,
        ),
{
    if point {
        let tail = fraction + power;
        let rest = seq!['.'] + tail;
        assert(whole + (seq!['.'] + fraction) + power =~= whole + rest);
        lemma_digits_run(whole, rest);
        assert(rest.drop_first() =~= tail);
        lemma_digits_run(fraction, power);
        assert(rest.skip(1 + fraction.len() as int) =~= power);
    } else {
        assert(whole + Seq::<char>::empty() + power =~= whole + power);
        lemma_digits_run(whole, power);
    }
}

proof fn lemma_filled_is_real(r: RealText)
    requires
        r.valid(),
    ensures
        parsing::is_real(r.filled()),
{
    match r.exponent {
        Some((mark, sign, digits)) => lemma_power_is_read(mark, sign, digits),
        None => {},
    }
    let filled = r.point && r.fraction.len() == 0 && r.exponent is Some && (r.exponent->0).0 == 'E';
    let fraction = if filled {
        seq!['0']
    } else {
        r.fraction
    };
    let body = r.whole + (if r.point {
        seq!['.'] + fraction
    } else {
        Seq::empty()
    }) + r.power();
    lemma_number_is_read(r.whole, r.point, fraction, r.power());
    if r.whole.len() > 0 {
        assert(body[0] == r.whole[0]);
        assert('0' <= r.whole[0] && r.whole[0] <= '9');
    } else {
        assert(body[0] == '.');
    }
    lemma_unsigned(r.sign, body);
    assert(r.filled() =~= r.sign + body);
}

proof fn lemma_real_filled(r: RealText)
    requires
        r.valid(),
    ensures
        parsing::with_fraction_digit(r.text()) == r.filled(),
{
    let m = r.mantissa();
    let p = r.power();
    let point = (r.sign.len() + r.whole.len()) as int;
    assert forall|i: int| 0 <= i < m.len() implies #[trigger] m[i] != 'E' && (m[i] == '.' ==> i
        == point && r.point) by {
        if i < r.sign.len() {
            assert(m[i] == r.sign[i]);
        } else if i < point {
            assert(m[i] == r.whole[i - r.sign.len()]);
        } else if i > point {
            assert(m[i] == r.fraction[i - point - 1]);
        }
    }
    assert forall|i: int| 0 <= i < p.len() implies #[trigger] p[i] != '.' by {
        let (mark, sign, digits) = r.exponent->0;
        if 0 < i <= sign.len() {
            assert(p[i] == sign[i - 1]);
        } else if i > sign.len() {
            assert(p[i] == digits[i - 1 - sign.len()]);
        }
    }
    assert(!has_gap(m));
    assert(!has_gap(p));
    if r.point && r.fraction.len() == 0 && r.exponent is Some && (r.exponent->0).0 == 'E' {
        assert(m.last() == '.');
        assert(p[0] == 'E');
        lemma_one_gap(m, p);
    } else {
        let s = m + p;
        assert(!has_gap(s)) by {
            if has_gap(s) {
                let i = choose|i: int| 0 <= i < s.len() - 1 && #[trigger] s[i] == '.' && s[i + 1]
                    == 'E';
                if i < m.len() {
                    assert(m[i] == '.');
                    if i + 1 < m.len() {
                        assert(m[i + 1] == 'E');
                    } else {
                        assert(p[0] == 'E');
                        assert(p[0] == (r.exponent->0).0);
                    }
                } else {
                    assert(p[i - m.len()] == '.');
                }
            }
        }
        lemma_no_gap(s);
    }
}

/// Every real number is read, whatever its signs are: with a plus, a minus or
/// none before its digits, and the same before those of its exponent. The sign
/// stays, and so do all digits; a zero comes between a point and the `E` behind
/// it. Blanks around it are dropped.
pub proof fn law_reals_are_read(r: RealText, before: Seq<char>, after: Seq<char>)
    requires
        r.valid(),
        is_blank(before),
        is_blank(after),
    ensures
        parsing::step_real(before + r.text() + after) == Some(r.filled()),
{
    let s = r.text();
    assert(s.len() > 0);
    assert(!text::is_space(s[0])) by {
        if r.sign.len() > 0 {
            assert(s[0] == r.sign[0]);
        } else if r.whole.len() > 0 {
            assert(s[0] == r.whole[0]);
        } else {
            assert(s[0] == '.');
        }
    }
    assert(!text::is_space(s.last())) by {
        match r.exponent {
            Some((mark, sign, digits)) => {
                assert(s.last() == digits[digits.len() - 1]);
            },
            None => {
                if r.fraction.len() > 0 {
                    assert(s.last() == r.fraction[r.fraction.len() - 1]);
                } else if r.point {
                    assert(s.last() == '.');
                } else {
                    assert(s.last() == r.whole[r.whole.len() - 1]);
                }
            },
        }
    }
    law_blanks_are_trimmed(before, s, after);
    lemma_real_filled(r);
    lemma_filled_is_real(r);
}

/// The text is the word, each letter small or capital: the code of a capital
/// is 32 below that of the small letter.
pub open spec fn spells(s: Seq<char>, small: Seq<char>) -> bool {
    &&& s.len() == small.len()
    &&& forall|i: int|
        0 <= i < s.len() ==> #[trigger] s[i] == small[i] || (s[i] as u32) + 32 == small[i] as u32
}

/// The text is a word for an infinity or for no number, with a sign or without.
pub open spec fn is_no_number(s: Seq<char>) -> bool {
    exists|sign: Seq<char>, word: Seq<char>|
        is_sign(sign) && s == #[trigger] (sign + word) && {
            ||| spells(word, seq!['i', 'n', 'f'])
            ||| spells(word, seq!['i', 'n', 'f', 'i', 'n', 'i', 't', 'y'])
            ||| spells(word, seq!['n', 'a', 'n'])
        }
}

proof fn lemma_power_has_parts(s: Seq<char>) -> (parts: (char, Seq<char>, Seq<char>))
    requires
        parsing::is_exponent(s),
    ensures
        parts.0 == 'e' || parts.0 == 'E',
        is_sign(parts.1),
        is_digits(parts.2),
        parts.2.len() > 0,
        s == seq![parts.0] + parts.1 + parts.2,
{
    let tail = s.drop_first();
    let digits = parsing::without_sign(tail);
    let sign = tail.take(tail.len() - digits.len());
    assert(is_sign(sign)) by {
        if sign.len() == 0 {
            assert(sign =~= Seq::<char>::empty());
        } else {
            assert(sign =~= seq![tail[0]]);
        }
    }
    assert forall|i: int| 0 <= i < digits.len() implies '0' <= #[trigger] digits[i] && digits[i]
        <= '9' by {
        assert(text::is_digit(digits[i]));
    }
    assert(s =~= seq![s[0]] + sign + digits);
    (s[0], sign, digits)
}

proof fn lemma_number_has_parts(sign: Seq<char>, s: Seq<char>) -> (r: RealText)
    requires
        is_sign(sign),
        parsing::is_decimal_number(s),
    ensures
        r.valid(),
        r.text() == sign + s,
{
    let n = text::digit_run(s);
    text::lemma_digit_run(s);
    let whole = s.take(n);
    let rest = s.skip(n);
    assert forall|i: int| 0 <= i < whole.len() implies '0' <= #[trigger] whole[i] && whole[i]
        <= '9' by {
        assert(text::is_digit(whole[i]));
    }
    let point = rest.len() > 0 && rest[0] == '.';
    let behind = if point {
        rest.drop_first()
    } else {
        rest
    };
    let m = if point {
        text::digit_run(behind)
    } else {
        0
    };
    text::lemma_digit_run(behind);
    let fraction = behind.take(m);
    let power = behind.skip(m);
    assert forall|i: int| 0 <= i < fraction.len() implies '0' <= #[trigger] fraction[i]
        && fraction[i] <= '9' by {
        assert(text::is_digit(fraction[i]));
    }
    if point {
        assert(rest.skip(1 + m) =~= power);
    } else {
        assert(power =~= rest);
    }
    let exponent = if power.len() == 0 {
        None
    } else {
        Some(lemma_power_has_parts(power))
    };
    let r = RealText { sign, whole, point, fraction, exponent };
    assert(r.text() =~= sign + s);
    r
}

/// Nothing but real numbers is read, and the words for infinities and for no
/// number: what comes out has the parts of one.
pub proof fn law_only_reals_are_read(s: Seq<char>)
    ensures
        parsing::step_real(s) matches Some(x) ==> is_no_number(x) || exists|r: RealText|
            r.valid() && x == #[trigger] r.text(),
{
    if let Some(x) = parsing::step_real(s) {
        let rest = parsing::without_sign(x);
        let sign = x.take(x.len() - rest.len());
        assert(is_sign(sign)) by {
            if sign.len() == 0 {
                assert(sign =~= Seq::<char>::empty());
            } else {
                assert(sign =~= seq![x[0]]);
            }
        }
        assert(x =~= sign + rest);
        if parsing::is_decimal_number(rest) {
            let r = lemma_number_has_parts(sign, rest);
            assert(x == r.text());
        } else {
            assert(forall|i: int, word: Seq<char>|
                #![trigger word[i]]
                parsing::is_word(rest, word) && 0 <= i < rest.len() ==> parsing::is_letter(
                    rest[i],
                    word[i],
                ));
            assert(is_no_number(sign + rest));
        }
    }
}

// References.

proof fn lemma_refs_behind(before: Seq<char>, rest: Seq<char>)
    requires
        text::lacks(before, '#'),
    ensures
        parsing::hash_refs(before + rest) == parsing::hash_refs(rest),
    decreases before.len(),
{
    if before.len() == 0 {
        assert(before + rest =~= rest);
    } else {
        let s = before + rest;
        assert(s[0] == before[0]);
        assert(s.drop_first() =~= before.drop_first() + rest);
        lemma_refs_behind(before.drop_first(), rest);
    }
}

/// A text without a number sign holds no reference.
pub proof fn law_no_reference_without_sign(s: Seq<char>)
    requires
        text::lacks(s, '#'),
    ensures
        parsing::hash_refs(s) == Seq::<u64>::empty(),
{
    lemma_refs_behind(s, Seq::empty());
    assert(s + Seq::<char>::empty() =~= s);
}

pub open spec fn reference(n: u64) -> Seq<char> {
    seq!['#'] + text::decimal(n as nat)
}

pub open spec fn starts_no_digit(s: Seq<char>) -> bool {
    s.len() > 0 ==> !('0' <= s[0] && s[0] <= '9')
}

proof fn lemma_decimal_digits(n: u64)
    ensures
        is_digits(text::decimal(n as nat)),
        text::decimal(n as nat).len() > 0,
{
    text::law_decimal_reads_back(n as nat);
    let d = text::decimal(n as nat);
    assert forall|i: int| 0 <= i < d.len() implies '0' <= #[trigger] d[i] && d[i] <= '9' by {
        assert(text::is_digit(d[i]));
    }
}

/// A reference that is written is read, whatever stands around it, and those
/// behind it follow.
pub proof fn law_references_are_read(before: Seq<char>, n: u64, after: Seq<char>)
    requires
        text::lacks(before, '#'),
        starts_no_digit(after),
    ensures
        parsing::hash_refs(before + reference(n) + after) == seq![n] + parsing::hash_refs(after),
{
    let d = text::decimal(n as nat);
    let s = reference(n) + after;
    assert(before + reference(n) + after =~= before + s);
    lemma_refs_behind(before, s);
    let tail = s.drop_first();
    assert(tail =~= d + after);
    lemma_decimal_digits(n);
    text::law_decimal_reads_back(n as nat);
    lemma_digits_run(d, after);
    assert(tail.take(d.len() as int) =~= d);
}

/// References with commas between them.
pub open spec fn reference_list(ids: Seq<u64>) -> Seq<char>
    decreases ids.len(),
{
    if ids.len() == 0 {
        Seq::empty()
    } else if ids.len() == 1 {
        reference(ids[0])
    } else {
        reference(ids[0]) + seq![','] + reference_list(ids.drop_first())
    }
}

/// All references of a list are read, in their order.
pub proof fn law_reference_lists_are_read(before: Seq<char>, ids: Seq<u64>, after: Seq<char>)
    requires
        text::lacks(before, '#'),
        starts_no_digit(after),
    ensures
        parsing::hash_refs(before + reference_list(ids) + after) == ids + parsing::hash_refs(after),
    decreases ids.len(),
{
    if ids.len() == 0 {
        assert(before + reference_list(ids) + after =~= before + after);
        lemma_refs_behind(before, after);
        assert(ids + parsing::hash_refs(after) =~= parsing::hash_refs(after));
    } else if ids.len() == 1 {
        law_references_are_read(before, ids[0], after);
        assert(seq![ids[0]] =~= ids);
    } else {
        let rest = ids.drop_first();
        let tail = seq![','] + reference_list(rest) + after;
        assert(before + reference_list(ids) + after =~= before + reference(ids[0]) + tail);
        law_references_are_read(before, ids[0], tail);
        law_reference_lists_are_read(seq![','], rest, after);
        assert(seq![ids[0]] + (rest + parsing::hash_refs(after)) =~= ids + parsing::hash_refs(
            after,
        ));
    }
}

// Entities.

/// The text is not empty and has no white space at its ends.
pub open spec fn is_bare(s: Seq<char>) -> bool {
    s.len() > 0 && !text::is_space(s[0]) && !text::is_space(s.last())
}

/// An entity as it is written: a number sign, its number, an equals sign and
/// its text.
pub open spec fn entity_text(id: u64, body: Seq<char>) -> Seq<char> {
    reference(id) + seq!['='] + body
}

proof fn lemma_reference_is_bare(n: u64)
    ensures
        is_bare(text::decimal(n as nat)),
        text::lacks(text::decimal(n as nat), '='),
        text::lacks(text::decimal(n as nat), ';'),
        text::lacks(text::decimal(n as nat), '\n'),
{
    lemma_decimal_digits(n);
    let d = text::decimal(n as nat);
    assert('0' <= d[0] && d[0] <= '9');
    assert('0' <= d[d.len() - 1] && d[d.len() - 1] <= '9');
}

/// An entity that is written is read: its number and its text, without the
/// blanks around them.
pub proof fn law_entities_are_read(
    before: Seq<char>,
    id: u64,
    gap: Seq<char>,
    other_gap: Seq<char>,
    body: Seq<char>,
    after: Seq<char>,
)
    requires
        is_blank(before),
        is_blank(gap),
        is_blank(other_gap),
        is_blank(after),
        is_bare(body),
    ensures
        parsing::entity_of(
            before + reference(id) + gap + seq!['='] + other_gap + body + after,
        ) == Some((id, body)),
{
    let d = text::decimal(id as nat);
    let none = Seq::<char>::empty();
    let whole = reference(id) + gap + seq!['='] + other_gap + body;
    assert(before + reference(id) + gap + seq!['='] + other_gap + body + after =~= before + whole
        + after);
    assert(whole[0] == '#');
    assert(whole.last() == body.last());
    law_blanks_are_trimmed(before, whole, after);
    let rest = whole.drop_first();
    lemma_reference_is_bare(id);
    let head = d + gap;
    assert(rest =~= head + seq!['='] + other_gap + body);
    let at = head.len() as int;
    assert forall|i: int| 0 <= i < at implies rest[i] != '=' by {
        if i < d.len() {
            assert(rest[i] == d[i]);
        } else {
            assert(rest[i] == gap[i - d.len()]);
        }
    }
    assert(rest[at] == '=');
    text::lemma_first_of_unique(rest, '=', at);
    assert(rest.take(at) =~= none + d + gap);
    law_blanks_are_trimmed(none, d, gap);
    text::law_u64_reads_back(id);
    assert(rest.skip(at + 1) =~= other_gap + body + none);
    law_blanks_are_trimmed(other_gap, body, none);
}

/// A file with one entity on each line.
pub open spec fn file_text(entities: Seq<(u64, Seq<char>)>) -> Seq<char>
    decreases entities.len(),
{
    if entities.len() == 0 {
        Seq::empty()
    } else {
        entity_text(entities[0].0, entities[0].1) + seq![';', '\n'] + file_text(
            entities.drop_first(),
        )
    }
}

pub open spec fn is_entity_body(s: Seq<char>) -> bool {
    is_bare(s) && text::lacks(s, ';') && text::lacks(s, '\n')
}

pub proof fn lemma_split_first(part: Seq<char>, c: char, rest: Seq<char>)
    requires
        text::lacks(part, c),
    ensures
        text::split(part + seq![c] + rest, c) == seq![part] + text::split(rest, c),
{
    let s = part + seq![c] + rest;
    let at = part.len() as int;
    assert forall|i: int| 0 <= i < at implies s[i] != c by {
        assert(s[i] == part[i]);
    }
    assert(s[at] == c);
    text::lemma_first_of_unique(s, c, at);
    assert(s.take(at) =~= part);
    assert(s.skip(at + 1) =~= rest);
}

/// The entities one behind the other, without line ends.
spec fn joined_entities(entities: Seq<(u64, Seq<char>)>) -> Seq<char>
    decreases entities.len(),
{
    if entities.len() == 0 {
        Seq::empty()
    } else {
        entity_text(entities[0].0, entities[0].1) + seq![';'] + joined_entities(
            entities.drop_first(),
        )
    }
}

spec fn entity_lines(entities: Seq<(u64, Seq<char>)>) -> Seq<Seq<char>> {
    Seq::new(
        entities.len(),
        |i: int| entity_text(entities[i].0, entities[i].1) + seq![';'],
    )
}

proof fn lemma_entity_text(id: u64, body: Seq<char>)
    requires
        is_entity_body(body),
    ensures
        text::lacks(entity_text(id, body), ';'),
        text::lacks(entity_text(id, body) + seq![';'], '\n'),
        is_bare(entity_text(id, body) + seq![';']),
        text::trim(entity_text(id, body) + seq![';']) == entity_text(id, body) + seq![';'],
{
    lemma_reference_is_bare(id);
    let d = text::decimal(id as nat);
    let s = entity_text(id, body);
    assert forall|i: int| 0 <= i < s.len() implies #[trigger] s[i] != ';' && s[i] != '\n' by {
        if 0 < i <= d.len() {
            assert(s[i] == d[i - 1]);
        } else if i > d.len() + 1 {
            assert(s[i] == body[i - d.len() - 2]);
        }
    }
    let line = s + seq![';'];
    let none = Seq::<char>::empty();
    assert(line[0] == '#');
    law_blanks_are_trimmed(none, line, none);
    assert(none + line + none =~= line);
}

proof fn lemma_file_lines(entities: Seq<(u64, Seq<char>)>)
    requires
        forall|i: int| 0 <= i < entities.len() ==> is_entity_body((#[trigger] entities[i]).1),
    ensures
        text::split(file_text(entities), '\n') == entity_lines(entities).push(Seq::empty()),
    decreases entities.len(),
{
    if entities.len() == 0 {
        text::lemma_split_whole(Seq::empty(), '\n');
        assert(text::split(file_text(entities), '\n') =~= entity_lines(entities).push(
            Seq::empty(),
        ));
    } else {
        let rest = entities.drop_first();
        assert forall|i: int| 0 <= i < rest.len() implies is_entity_body(
            (#[trigger] rest[i]).1,
        ) by {
            assert(rest[i] == entities[i + 1]);
        }
        lemma_file_lines(rest);
        assert(is_entity_body(entities[0].1));
        lemma_entity_text(entities[0].0, entities[0].1);
        let line = entity_text(entities[0].0, entities[0].1) + seq![';'];
        assert(file_text(entities) =~= line + seq!['\n'] + file_text(rest));
        lemma_split_first(line, '\n', file_text(rest));
        assert(seq![line] + entity_lines(rest).push(Seq::empty()) =~= entity_lines(entities).push(
            Seq::empty(),
        ));
    }
}

proof fn lemma_lines_joined(entities: Seq<(u64, Seq<char>)>, n: int)
    requires
        0 <= n <= entities.len(),
        forall|i: int| 0 <= i < entities.len() ==> is_entity_body((#[trigger] entities[i]).1),
    ensures
        parsing::joined(entity_lines(entities).take(n)) == joined_entities(entities.take(n)),
        n > 0 ==> joined_entities(entities.take(n)).len() > 0 && joined_entities(
            entities.take(n),
        ).last() == ';',
    decreases n,
{
    if n > 0 {
        lemma_lines_joined(entities, n - 1);
        let lines = entity_lines(entities).take(n);
        assert(lines.drop_last() =~= entity_lines(entities).take(n - 1));
        let e = entities[n - 1];
        assert(is_entity_body(e.1));
        lemma_entity_text(e.0, e.1);
        let line = entity_text(e.0, e.1) + seq![';'];
        assert(lines.last() == line);
        lemma_joined_entities_push(entities.take(n - 1), e);
        assert(entities.take(n - 1).push(e) =~= entities.take(n));
        if n == 1 {
            assert(entities.take(0) =~= Seq::empty());
        }
    }
}

proof fn lemma_joined_entities_push(entities: Seq<(u64, Seq<char>)>, e: (u64, Seq<char>))
    ensures
        joined_entities(entities.push(e)) == joined_entities(entities) + (entity_text(e.0, e.1)
            + seq![';']),
    decreases entities.len(),
{
    let all = entities.push(e);
    if entities.len() == 0 {
        assert(all.drop_first() =~= Seq::empty());
        assert(joined_entities(all.drop_first()) =~= Seq::empty());
        assert(joined_entities(all) =~= joined_entities(entities) + (entity_text(e.0, e.1)
            + seq![';']));
    } else {
        let rest = entities.drop_first();
        lemma_joined_entities_push(rest, e);
        assert(all.drop_first() =~= rest.push(e));
        assert(joined_entities(all) =~= joined_entities(entities) + (entity_text(e.0, e.1)
            + seq![';']));
    }
}

proof fn lemma_joined_parts(entities: Seq<(u64, Seq<char>)>)
    requires
        forall|i: int| 0 <= i < entities.len() ==> is_entity_body((#[trigger] entities[i]).1),
    ensures
        ({
            let parts = text::split(joined_entities(entities), ';');
            &&& parts.len() == entities.len() + 1
            &&& parts.last() == Seq::<char>::empty()
            &&& forall|i: int|
                0 <= i < entities.len() ==> #[trigger] parts[i] == entity_text(
                    entities[i].0,
                    entities[i].1,
                )
        }),
    decreases entities.len(),
{
    if entities.len() == 0 {
        text::lemma_split_whole(Seq::empty(), ';');
    } else {
        let rest = entities.drop_first();
        assert forall|i: int| 0 <= i < rest.len() implies is_entity_body(
            (#[trigger] rest[i]).1,
        ) by {
            assert(rest[i] == entities[i + 1]);
        }
        lemma_joined_parts(rest);
        assert(is_entity_body(entities[0].1));
        lemma_entity_text(entities[0].0, entities[0].1);
        let first = entity_text(entities[0].0, entities[0].1);
        lemma_split_first(first, ';', joined_entities(rest));
        let parts = text::split(joined_entities(entities), ';');
        let others = text::split(joined_entities(rest), ';');
        assert(parts == seq![first] + others);
        assert forall|i: int| 0 <= i < entities.len() implies #[trigger] parts[i] == entity_text(
            entities[i].0,
            entities[i].1,
        ) by {
            if i > 0 {
                assert(parts[i] == others[i - 1]);
                assert(rest[i - 1] == entities[i]);
            }
        }
        assert(parts.last() == others.last());
    }
}

proof fn lemma_parts_read(parts: Seq<Seq<char>>, entities: Seq<(u64, Seq<char>)>, n: int)
    requires
        0 <= n <= entities.len() <= parts.len(),
        forall|i: int| 0 <= i < entities.len() ==> is_entity_body((#[trigger] entities[i]).1),
        forall|i: int|
            0 <= i < entities.len() ==> #[trigger] parts[i] == entity_text(
                entities[i].0,
                entities[i].1,
            ),
    ensures
        parsing::entities_of(parts.take(n)) == entities.take(n),
    decreases n,
{
    if n == 0 {
        assert(parsing::entities_of(parts.take(0)) =~= entities.take(0));
    } else {
        lemma_parts_read(parts, entities, n - 1);
        let e = entities[n - 1];
        let none = Seq::<char>::empty();
        assert(is_entity_body(e.1));
        law_entities_are_read(none, e.0, none, none, e.1, none);
        assert(none + reference(e.0) + none + seq!['='] + none + e.1 + none =~= entity_text(
            e.0,
            e.1,
        ));
        assert(parts.take(n).drop_last() =~= parts.take(n - 1));
        assert(parts.take(n).last() == parts[n - 1]);
        assert(entities.take(n - 1).push(e) =~= entities.take(n));
    }
}

/// A file that is written entity by entity is read so: each with its number
/// and its text, in their order.
pub proof fn law_written_files_are_read(entities: Seq<(u64, Seq<char>)>)
    requires
        forall|i: int| 0 <= i < entities.len() ==> is_entity_body((#[trigger] entities[i]).1),
    ensures
        parsing::file_entities(file_text(entities)) == entities,
{
    let n = entities.len() as int;
    let lines = entity_lines(entities);
    let all = lines.push(Seq::empty());
    lemma_file_lines(entities);
    lemma_lines_joined(entities, n);
    assert(lines.take(n) =~= lines);
    assert(entities.take(n) =~= entities);
    assert(all.drop_last() =~= lines);
    assert(text::trim(all.last()) == Seq::<char>::empty());
    assert(parsing::joined(all) == joined_entities(entities));
    lemma_joined_parts(entities);
    let parts = text::split(joined_entities(entities), ';');
    lemma_parts_read(parts, entities, n);
    assert(parts.drop_last() =~= parts.take(n));
    assert(parsing::entity_of(Seq::empty()) is None) by {
        assert(text::trim(Seq::<char>::empty()) == Seq::<char>::empty());
    }
}

// Keywords, points and colours.

/// A keyword and a name without a number sign have none between them.
pub proof fn lemma_keyword_lacks(keyword: Seq<char>, name: Seq<char>)
    requires
        text::lacks(keyword, '#'),
        text::lacks(name, '#'),
    ensures
        text::lacks(keyword + name, '#'),
{
    lemma_joined_lacks(keyword, name, '#');
}

/// A text with one keyword does not start with another that differs from it at
/// some character.
pub proof fn lemma_other_keyword(keyword: Seq<char>, other: Seq<char>, rest: Seq<char>, i: int)
    requires
        0 <= i < keyword.len(),
        i < other.len(),
        keyword[i] != other[i],
    ensures
        !other.is_prefix_of(keyword + rest),
{
    let s = keyword + rest;
    if other.is_prefix_of(s) {
        assert(other[i] == s.take(other.len() as int)[i]);
        assert(s[i] == keyword[i]);
    }
}

proof fn lemma_real_lacks(r: RealText, c: char)
    requires
        r.valid(),
        c == ',' || c == ')' || c == '(' || c == '#',
    ensures
        text::lacks(r.text(), c),
{
    let s = r.text();
    let m = r.mantissa();
    let point = (r.sign.len() + r.whole.len()) as int;
    assert forall|i: int| 0 <= i < s.len() implies #[trigger] s[i] != c by {
        if i < r.sign.len() {
            assert(s[i] == r.sign[i]);
        } else if i < point {
            assert(s[i] == r.whole[i - r.sign.len()]);
        } else if i < m.len() {
            if i > point {
                assert(s[i] == r.fraction[i - point - 1]);
            } else {
                assert(s[i] == '.');
            }
        } else {
            let (mark, sign, digits) = r.exponent->0;
            let k = i - m.len();
            assert(s[i] == r.power()[k]);
            if 0 < k <= sign.len() {
                assert(s[i] == sign[k - 1]);
            } else if k > sign.len() {
                assert(s[i] == digits[k - 1 - sign.len()]);
            }
        }
    }
}

/// Three numbers with commas between them.
pub open spec fn three_reals(x: RealText, y: RealText, z: RealText) -> Seq<char> {
    x.text() + seq![','] + y.text() + seq![','] + z.text()
}

pub proof fn lemma_joined_lacks(a: Seq<char>, b: Seq<char>, c: char)
    requires
        text::lacks(a, c),
        text::lacks(b, c),
    ensures
        text::lacks(a + b, c),
{
    let s = a + b;
    assert forall|i: int| 0 <= i < s.len() implies #[trigger] s[i] != c by {
        if i < a.len() {
            assert(s[i] == a[i]);
        } else {
            assert(s[i] == b[i - a.len()]);
        }
    }
}

proof fn lemma_three_lack(x: RealText, y: RealText, z: RealText, c: char)
    requires
        x.valid(),
        y.valid(),
        z.valid(),
        c == ')' || c == '#',
    ensures
        text::lacks(three_reals(x, y, z), c),
{
    lemma_real_lacks(x, c);
    lemma_real_lacks(y, c);
    lemma_real_lacks(z, c);
    let comma = seq![','];
    lemma_joined_lacks(x.text(), comma, c);
    lemma_joined_lacks(x.text() + comma, y.text(), c);
    lemma_joined_lacks(x.text() + comma + y.text(), comma, c);
    lemma_joined_lacks(x.text() + comma + y.text() + comma, z.text(), c);
}

proof fn lemma_text_is_read(r: RealText)
    requires
        r.valid(),
    ensures
        parsing::step_real(r.text()) == Some(r.filled()),
{
    let none = Seq::<char>::empty();
    law_reals_are_read(r, none, none);
    assert(none + r.text() + none =~= r.text());
}

proof fn lemma_three_parts(a: Seq<char>, b: Seq<char>, c: Seq<char>)
    requires
        text::lacks(a, ','),
        text::lacks(b, ','),
        text::lacks(c, ','),
    ensures
        text::split(a + seq![','] + b + seq![','] + c, ',') == seq![a, b, c],
{
    let tail = b + seq![','] + c;
    assert(a + seq![','] + b + seq![','] + c =~= a + seq![','] + tail);
    lemma_split_first(a, ',', tail);
    lemma_split_first(b, ',', c);
    text::lemma_split_whole(c, ',');
    assert(seq![a] + (seq![b] + seq![c]) =~= seq![a, b, c]);
}

proof fn lemma_point(
    name: Seq<char>,
    gap: Seq<char>,
    reals: Seq<char>,
    parts: Seq<Seq<char>>,
    after: Seq<char>,
)
    requires
        text::lacks(name, ','),
        text::lacks(gap, '('),
        text::lacks(reals, ')'),
        text::split(reals, ',') == parts,
    ensures
        parsing::point_coords(name + seq![','] + gap + seq!['('] + reals + seq![')'] + after)
            == parsing::real_triple(parts, 0),
{
    let s = name + seq![','] + gap + seq!['('] + reals + seq![')'] + after;
    assert forall|i: int| 0 <= i < name.len() implies s[i] != ',' by {
        assert(s[i] == name[i]);
    }
    text::lemma_first_of_unique(s, ',', name.len() as int);
    let list = s.skip(name.len() as int + 1);
    assert(list =~= gap + seq!['('] + reals + seq![')'] + after);
    assert forall|i: int| 0 <= i < gap.len() implies list[i] != '(' by {
        assert(list[i] == gap[i]);
    }
    text::lemma_first_of_unique(list, '(', gap.len() as int);
    let inner = list.skip(gap.len() as int + 1);
    assert(inner =~= reals + seq![')'] + after);
    assert forall|i: int| 0 <= i < reals.len() implies inner[i] != ')' by {
        assert(inner[i] == reals[i]);
    }
    text::lemma_first_of_unique(inner, ')', reals.len() as int);
    assert(inner.take(reals.len() as int) =~= reals);
}

/// The coordinates of a point that is written are read, in their order,
/// whatever the name before them is.
pub proof fn law_points_are_read(
    name: Seq<char>,
    gap: Seq<char>,
    x: RealText,
    y: RealText,
    z: RealText,
    after: Seq<char>,
)
    requires
        text::lacks(name, ','),
        text::lacks(gap, '('),
        x.valid(),
        y.valid(),
        z.valid(),
    ensures
        parsing::point_coords(
            name + seq![','] + gap + seq!['('] + three_reals(x, y, z) + seq![')'] + after,
        ) == Some((x.filled(), y.filled(), z.filled())),
{
    let parts = seq![x.text(), y.text(), z.text()];
    lemma_real_lacks(x, ',');
    lemma_real_lacks(y, ',');
    lemma_real_lacks(z, ',');
    lemma_three_parts(x.text(), y.text(), z.text());
    lemma_three_lack(x, y, z, ')');
    lemma_point(name, gap, three_reals(x, y, z), parts, after);
    lemma_text_is_read(x);
    lemma_text_is_read(y);
    lemma_text_is_read(z);
}

proof fn lemma_after_last(s: Seq<char>, c: char, at: int)
    requires
        0 <= at < s.len(),
        s[at] == c,
        forall|i: int| at < i < s.len() ==> #[trigger] s[i] != c,
    ensures
        text::after_last_of(s, c) == at + 1,
    decreases s.len(),
{
    if at < s.len() - 1 {
        assert(s.last() == s[s.len() - 1]);
        lemma_after_last(s.drop_last(), c, at);
    }
}

proof fn lemma_colour(keyword: Seq<char>, name: Seq<char>, reals: Seq<char>, parts: Seq<Seq<char>>)
    requires
        text::lacks(keyword, '('),
        text::lacks(name, ','),
        text::split(reals, ',') == parts,
    ensures
        parsing::colour_components(keyword + seq!['('] + name + seq![','] + reals + seq![')'])
            == parsing::real_triple(seq![name] + parts, 1),
{
    let s = keyword + seq!['('] + name + seq![','] + reals + seq![')'];
    assert forall|i: int| 0 <= i < keyword.len() implies s[i] != '(' by {
        assert(s[i] == keyword[i]);
    }
    text::lemma_first_of_unique(s, '(', keyword.len() as int);
    let list = name + seq![','] + reals;
    let inner = s.skip(keyword.len() as int + 1);
    assert(inner =~= list + seq![')']);
    lemma_after_last(inner, ')', list.len() as int);
    assert(inner.take(list.len() as int) =~= list);
    lemma_split_first(name, ',', reals);
}

/// The components of a colour that is written are read, red before green before
/// blue, whatever its name is.
pub proof fn law_colours_are_read(
    keyword: Seq<char>,
    name: Seq<char>,
    red: RealText,
    green: RealText,
    blue: RealText,
)
    requires
        text::lacks(keyword, '('),
        text::lacks(name, ','),
        red.valid(),
        green.valid(),
        blue.valid(),
    ensures
        parsing::colour_components(
            keyword + seq!['('] + name + seq![','] + three_reals(red, green, blue) + seq![')'],
        ) == Some((red.filled(), green.filled(), blue.filled())),
{
    let parts = seq![red.text(), green.text(), blue.text()];
    lemma_real_lacks(red, ',');
    lemma_real_lacks(green, ',');
    lemma_real_lacks(blue, ',');
    lemma_three_parts(red.text(), green.text(), blue.text());
    lemma_colour(keyword, name, three_reals(red, green, blue), parts);
    lemma_text_is_read(red);
    lemma_text_is_read(green);
    lemma_text_is_read(blue);
    let all = seq![name] + parts;
    assert(all[1] == red.text() && all[2] == green.text() && all[3] == blue.text());
}

// Lines.

proof fn lemma_split_behind(s: Seq<char>, line: Seq<char>, c: char)
    requires
        text::lacks(line, c),
    ensures
        text::split(s.push(c) + line, c) == text::split(s, c).push(line),
    decreases s.len(),
{
    let whole = s.push(c) + line;
    text::lemma_first_of(s, c);
    text::lemma_first_of(whole, c);
    let at = text::first_of(s, c);
    assert(whole[s.len() as int] == c);
    if at >= s.len() {
        assert(at == s.len());
        assert forall|i: int| 0 <= i < at implies #[trigger] whole[i] != c by {
            assert(s[i] != c);
        }
        text::lemma_first_of_unique(whole, c, at);
        assert(whole.take(at) =~= s);
        assert(whole.skip(at + 1) =~= line);
        text::lemma_split_whole(line, c);
        assert(text::split(s, c) =~= seq![s]);
        assert(text::split(whole, c) =~= seq![s].push(line));
    } else {
        assert forall|i: int| 0 <= i < at implies #[trigger] whole[i] != c by {
            assert(s[i] != c);
        }
        assert(whole[at] == c);
        text::lemma_first_of_unique(whole, c, at);
        let rest = s.skip(at + 1);
        assert(whole.skip(at + 1) =~= rest.push(c) + line);
        assert(whole.take(at) =~= s.take(at));
        lemma_split_behind(rest, line, c);
        assert(text::split(whole, c) =~= text::split(s, c).push(line));
    }
}

/// One more line is put behind the lines that were joined: without the white
/// space around it, and with a blank before it unless an entity has just ended
/// or nothing stands there. An empty line adds nothing.
pub proof fn law_lines_are_joined_by_blanks(raw: Seq<char>, line: Seq<char>)
    requires
        text::lacks(line, '\n'),
    ensures
        ({
            let before = parsing::joined_text(raw);
            let after = parsing::joined_text(raw + "\n"@ + line);
            let own = text::trim(line);
            &&& own.len() == 0 ==> after == before
            &&& own.len() > 0 && before.len() == 0 ==> after == own
            &&& own.len() > 0 && before.len() > 0 && before[before.len() - 1] == ';' ==> after
                == before + own
            &&& own.len() > 0 && before.len() > 0 && before[before.len() - 1] != ';' ==> after
                == before + " "@ + own
        }),
{
    reveal_strlit("\n");
    reveal_strlit(" ");
    assert(raw + "\n"@ + line =~= raw.push('\n') + line);
    lemma_split_behind(raw, line, '\n');
    let lines = text::split(raw, '\n');
    let before = parsing::joined_text(raw);
    let own = text::trim(line);
    assert(lines.push(line).drop_last() =~= lines);
    assert(before + " "@ =~= before.push(' '));
    if before.len() == 0 {
        assert(before + own =~= own);
    }
}

} // verus!
