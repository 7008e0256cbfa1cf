//! Entities of a STEP file, read from its raw text.
//!
//! An entity is written `#id = KEYWORD(parameters);` and may span lines. The
//! functions here join the lines, cut the text into entities and read the
//! references and the real numbers that stand in their parameters. A real
//! number is kept as its decimal text.

use vstd::prelude::*;
use vstd::slice::slice_subrange;

use crate::text;
use crate::text::{
    chars_of, find, leading_digits, parse_digits, parse_u64, rfind, split_at_char, string_of, trimmed,
};

verus! {

/// Three real numbers, each as its decimal text.
pub struct RealTriple {
    pub x: String,
    pub y: String,
    pub z: String,
}

impl View for RealTriple {
    type V = (Seq<char>, Seq<char>, Seq<char>);

    open spec fn view(&self) -> (Seq<char>, Seq<char>, Seq<char>) {
        (self.x@, self.y@, self.z@)
    }
}

impl RealTriple {
    pub fn copy(&self) -> (r: RealTriple)
        ensures
            r@ == self@,
    {
        RealTriple { x: self.x.clone(), y: self.y.clone(), z: self.z.clone() }
    }
}

/// One entity: its number and the text behind the equals sign.
pub struct Entity {
    pub id: u64,
    pub text: Vec<char>,
}

impl View for Entity {
    type V = (u64, Seq<char>);

    open spec fn view(&self) -> (u64, Seq<char>) {
        (self.id, self.text@)
    }
}

/// The lines, each trimmed and the empty ones left out, one behind the other.
/// A space stands between two lines unless the first one ends an entity.
pub open spec fn joined(lines: Seq<Seq<char>>) -> Seq<char>
    decreases lines.len(),
{
    if lines.len() == 0 {
        Seq::empty()
    } else {
        let before = joined(lines.drop_last());
        let line = text::trim(lines.last());
        if line.len() == 0 {
            before
        } else if before.len() > 0 && before.last() != ';' {
            before.push(' ') + line
        } else {
            before + line
        }
    }
}

/// The text of a STEP file with its lines joined.
pub open spec fn joined_text(raw: Seq<char>) -> Seq<char> {
    joined(text::split(raw, '\n'))
}

proof fn lemma_joined(lines: Seq<Seq<char>>)
    requires
        forall|i: int| 0 <= i < lines.len() ==> text::lacks(#[trigger] lines[i], '\n'),
    ensures
        text::lacks(joined(lines), '\n'),
        text::is_trimmed(joined(lines)),
    decreases lines.len(),
{
    if lines.len() > 0 {
        let init = lines.drop_last();
        assert forall|i: int| 0 <= i < init.len() implies text::lacks(#[trigger] init[i], '\n') by {
            assert(init[i] == lines[i]);
        }
        lemma_joined(init);
        assert(text::lacks(lines[lines.len() - 1], '\n'));
        text::lemma_trim(lines.last(), '\n');
        let before = joined(init);
        let line = text::trim(lines.last());
        if line.len() > 0 {
            let all = joined(lines);
            assert(all.last() == line.last());
            if before.len() > 0 {
                assert(all[0] == before[0]);
            } else {
                assert(all =~= line);
            }
        }
    }
}

/// Text whose lines have been joined stays as it is when they are joined
/// again.
pub proof fn law_joined_text_stays(raw: Seq<char>)
    ensures
        joined_text(joined_text(raw)) == joined_text(raw),
{
    let once = joined_text(raw);
    text::lemma_split_lacks(raw, '\n');
    lemma_joined(text::split(raw, '\n'));
    text::lemma_split_whole(once, '\n');
    let lines = seq![once];
    assert(lines.drop_last() =~= Seq::empty());
    assert(text::trim(once) == once);
    assert(joined(lines.drop_last()) == Seq::<char>::empty());
    assert(lines.last() == once);
    assert(Seq::<char>::empty() + once =~= once);
}

/// What is left of a text without its white space.
pub open spec fn without_space(s: Seq<char>) -> Seq<char>
    decreases s.len(),
{
    if s.len() == 0 {
        Seq::empty()
    } else if text::is_space(s.last()) {
        without_space(s.drop_last())
    } else {
        without_space(s.drop_last()).push(s.last())
    }
}

proof fn lemma_without_space_adds(a: Seq<char>, b: Seq<char>)
    ensures
        without_space(a + b) == without_space(a) + without_space(b),
    decreases b.len(),
{
    if b.len() == 0 {
        assert(a + b =~= a);
        assert(without_space(a) + without_space(b) =~= without_space(a));
    } else {
        lemma_without_space_adds(a, b.drop_last());
        assert((a + b).drop_last() =~= a + b.drop_last());
        assert(without_space(a + b) =~= without_space(a) + without_space(b));
    }
}

proof fn lemma_trim_start_loses_space(s: Seq<char>)
    ensures
        without_space(text::trim_start(s)) == without_space(s),
        text::trim_start(s).len() <= s.len(),
    decreases s.len(),
{
    if s.len() > 0 && text::is_space(s[0]) {
        lemma_trim_start_loses_space(s.drop_first());
        let first = seq![s[0]];
        lemma_without_space_adds(first, s.drop_first());
        assert(first + s.drop_first() =~= s);
        assert(without_space(first.drop_last()) =~= Seq::empty());
        assert(without_space(first) =~= Seq::empty());
        assert(without_space(s) =~= without_space(s.drop_first()));
    }
}

proof fn lemma_trim_end_loses_space(s: Seq<char>)
    ensures
        without_space(text::trim_end(s)) == without_space(s),
        text::trim_end(s).len() <= s.len(),
    decreases s.len(),
{
    if s.len() > 0 && text::is_space(s.last()) {
        lemma_trim_end_loses_space(s.drop_last());
    }
}

/// The lines one behind the other, without their white space.
spec fn dense_lines(lines: Seq<Seq<char>>) -> Seq<char>
    decreases lines.len(),
{
    if lines.len() == 0 {
        Seq::empty()
    } else {
        dense_lines(lines.drop_last()) + without_space(lines.last())
    }
}

/// The number of characters of the lines, each with its end.
spec fn line_total(lines: Seq<Seq<char>>) -> int
    decreases lines.len(),
{
    if lines.len() == 0 {
        0
    } else {
        line_total(lines.drop_last()) + lines.last().len() + 1
    }
}

proof fn lemma_line_before(line: Seq<char>, rest: Seq<Seq<char>>)
    ensures
        dense_lines(seq![line] + rest) == without_space(line) + dense_lines(rest),
        line_total(seq![line] + rest) == line.len() + 1 + line_total(rest),
    decreases rest.len(),
{
    let all = seq![line] + rest;
    if rest.len() == 0 {
        assert(all.last() == line);
        assert(dense_lines(all.drop_last()) =~= Seq::empty());
        assert(line_total(all.drop_last()) == 0);
        assert(dense_lines(all) =~= without_space(line) + dense_lines(rest));
    } else {
        lemma_line_before(line, rest.drop_last());
        assert(all.drop_last() =~= seq![line] + rest.drop_last());
        assert(dense_lines(all) =~= without_space(line) + dense_lines(rest));
    }
}

proof fn lemma_lines_of_text(raw: Seq<char>)
    ensures
        dense_lines(text::split(raw, '\n')) == without_space(raw),
        line_total(text::split(raw, '\n')) == raw.len() + 1,
    decreases raw.len(),
{
    text::lemma_first_of(raw, '\n');
    let at = text::first_of(raw, '\n');
    let none = Seq::<Seq<char>>::empty();
    if at >= raw.len() {
        lemma_line_before(raw, none);
        assert(seq![raw] + none =~= seq![raw]);
        assert(without_space(raw) + dense_lines(none) =~= without_space(raw));
    } else {
        let rest = raw.skip(at + 1);
        let end = seq!['\n'];
        lemma_lines_of_text(rest);
        lemma_line_before(raw.take(at), text::split(rest, '\n'));
        assert(raw =~= raw.take(at) + end + rest);
        lemma_without_space_adds(raw.take(at) + end, rest);
        lemma_without_space_adds(raw.take(at), end);
        assert(without_space(end.drop_last()) =~= Seq::empty());
        assert(text::is_space('\n'));
        assert(without_space(end) =~= Seq::empty());
        assert(without_space(raw) =~= without_space(raw.take(at)) + without_space(rest));
    }
}

proof fn lemma_joined_loses_space(lines: Seq<Seq<char>>)
    ensures
        without_space(joined(lines)) == dense_lines(lines),
        lines.len() > 0 ==> joined(lines).len() < line_total(lines),
        lines.len() == 0 ==> joined(lines).len() == 0,
    decreases lines.len(),
{
    if lines.len() > 0 {
        let before = joined(lines.drop_last());
        let line = text::trim(lines.last());
        lemma_joined_loses_space(lines.drop_last());
        lemma_trim_start_loses_space(lines.last());
        lemma_trim_end_loses_space(text::trim_start(lines.last()));
        lemma_without_space_adds(before, line);
        lemma_without_space_adds(before.push(' '), line);
        assert(before.push(' ').drop_last() =~= before);
        assert(text::is_space(' '));
        assert(without_space(before.push(' ')) == without_space(before));
        if line.len() == 0 {
            assert(before + line =~= before);
        }
    }
}

/// Joining the lines of a text loses nothing but white space and makes it no
/// longer. What comes out is one line without white space at either end.
pub proof fn law_joined_text_loses_only_space(raw: Seq<char>)
    ensures
        without_space(joined_text(raw)) == without_space(raw),
        joined_text(raw).len() <= raw.len(),
        text::lacks(joined_text(raw), '\n'),
        text::trim(joined_text(raw)) == joined_text(raw),
{
    let lines = text::split(raw, '\n');
    lemma_joined_loses_space(lines);
    lemma_lines_of_text(raw);
    text::lemma_split_lacks(raw, '\n');
    lemma_joined(lines);
}

/// The entities of a file are those of its text with the lines joined.
pub proof fn law_entities_of_joined_text(raw: Seq<char>)
    ensures
        file_entities(joined_text(raw)) == file_entities(raw),
{
    law_joined_text_stays(raw);
}

/// The entity that a part of the file between two semicolons holds.
pub open spec fn entity_of(part: Seq<char>) -> Option<(u64, Seq<char>)> {
    let whole = text::trim(part);
    let rest = whole.drop_first();
    let equals = text::first_of(rest, '=');
    if whole.len() == 0 || whole[0] != '#' || equals >= rest.len() {
        None
    } else {
        match text::text_to_u64(text::trim(rest.take(equals))) {
            Some(id) => Some((id, text::trim(rest.skip(equals + 1)))),
            None => None,
        }
    }
}

pub open spec fn entities_of(parts: Seq<Seq<char>>) -> Seq<(u64, Seq<char>)>
    decreases parts.len(),
{
    if parts.len() == 0 {
        Seq::empty()
    } else {
        match entity_of(parts.last()) {
            Some(entity) => entities_of(parts.drop_last()).push(entity),
            None => entities_of(parts.drop_last()),
        }
    }
}

/// The entities of a STEP file, in the order in which they stand there.
pub open spec fn file_entities(raw: Seq<char>) -> Seq<(u64, Seq<char>)> {
    entities_of(text::split(joined_text(raw), ';'))
}

/// The numbers of the references `#number` in a text, from left to right. A
/// number sign without digits, or with a number over 64 bits, is no reference.
pub open spec fn hash_refs(s: Seq<char>) -> Seq<u64>
    decreases s.len(),
    via hash_refs_decreases
{
    if s.len() == 0 {
        Seq::empty()
    } else if s[0] != '#' {
        hash_refs(s.drop_first())
    } else {
        let tail = s.drop_first();
        let run = text::digit_run(tail);
        let others = hash_refs(tail.skip(run));
        match text::digits_to_u64(tail.take(run)) {
            Some(id) => seq![id] + others,
            None => others,
        }
    }
}

#[via_fn]
proof fn hash_refs_decreases(s: Seq<char>) {
    text::lemma_digit_run(s.drop_first());
}

/// The text with a `0` put between each point and the `E` behind it.
pub open spec fn with_fraction_digit(s: Seq<char>) -> Seq<char>
    decreases s.len(),
{
    if s.len() == 0 {
        s
    } else if s.len() >= 2 && s[0] == '.' && s[1] == 'E' {
        seq!['.', '0', 'E'] + with_fraction_digit(s.skip(2))
    } else {
        seq![s[0]] + with_fraction_digit(s.drop_first())
    }
}

/// Whether `c` is the lower case letter `letter` or its upper case.
pub open spec fn is_letter(c: char, letter: char) -> bool {
    c == letter || (c as u32) + 32 == letter as u32
}

/// Whether the text is the lower case `word`, in whatever case it is written.
pub open spec fn is_word(s: Seq<char>, word: Seq<char>) -> bool {
    &&& s.len() == word.len()
    &&& forall|i: int| 0 <= i < s.len() ==> is_letter(#[trigger] s[i], word[i])
}

pub open spec fn without_sign(s: Seq<char>) -> Seq<char> {
    if s.len() > 0 && (s[0] == '+' || s[0] == '-') {
        s.drop_first()
    } else {
        s
    }
}

pub open spec fn is_exponent(s: Seq<char>) -> bool {
    &&& s.len() > 0
    &&& (s[0] == 'e' || s[0] == 'E')
    &&& without_sign(s.drop_first()).len() > 0
    &&& text::all_digits(without_sign(s.drop_first()))
}

/// Digits with an optional fraction and an optional exponent; at least one
/// digit stands before or behind the point.
pub open spec fn is_decimal_number(s: Seq<char>) -> bool {
    let whole = text::digit_run(s);
    let rest = s.skip(whole);
    if rest.len() > 0 && rest[0] == '.' {
        let fraction = text::digit_run(rest.drop_first());
        let end = rest.skip(1 + fraction);
        whole + fraction > 0 && (end.len() == 0 || is_exponent(end))
    } else {
        whole > 0 && (rest.len() == 0 || is_exponent(rest))
    }
}

/// Whether the text is a decimal real number, an infinity or not a number.
pub open spec fn is_real(s: Seq<char>) -> bool {
    let unsigned = without_sign(s);
    ||| is_word(unsigned, seq!['i', 'n', 'f'])
    ||| is_word(unsigned, seq!['i', 'n', 'f', 'i', 'n', 'i', 't', 'y'])
    ||| is_word(unsigned, seq!['n', 'a', 'n'])
    ||| is_decimal_number(unsigned)
}

/// The decimal text of a real number as STEP writes it, such as `0.E+000`.
pub open spec fn step_real(s: Seq<char>) -> Option<Seq<char>> {
    let digits = with_fraction_digit(text::trim(s));
    if is_real(digits) {
        Some(digits)
    } else {
        None
    }
}

/// The three parts from `from` on as real numbers, if all of them are.
pub open spec fn real_triple(parts: Seq<Seq<char>>, from: int) -> Option<
    (Seq<char>, Seq<char>, Seq<char>),
> {
    if parts.len() < from + 3 {
        None
    } else {
        match (step_real(parts[from]), step_real(parts[from + 1]), step_real(parts[from + 2])) {
            (Some(x), Some(y), Some(z)) => Some((x, y, z)),
            _ => None,
        }
    }
}

/// The coordinates of a point or direction: the first three parts of the
/// first parenthesis behind the first comma.
pub open spec fn point_coords(s: Seq<char>) -> Option<(Seq<char>, Seq<char>, Seq<char>)> {
    let comma = text::first_of(s, ',');
    let list = s.skip(comma + 1);
    let open = text::first_of(list, '(');
    let inner = list.skip(open + 1);
    let close = text::first_of(inner, ')');
    if comma >= s.len() || open >= list.len() || close >= inner.len() {
        None
    } else {
        real_triple(text::split(inner.take(close), ','), 0)
    }
}

/// The components of a colour: the second to fourth part of the text between
/// the first opening and the last closing parenthesis.
pub open spec fn colour_components(s: Seq<char>) -> Option<(Seq<char>, Seq<char>, Seq<char>)> {
    let open = text::first_of(s, '(');
    let inner = s.skip(open + 1);
    let close = text::after_last_of(inner, ')');
    if open >= s.len() || close == 0 {
        None
    } else {
        real_triple(text::split(inner.take(close - 1), ','), 1)
    }
}

pub open spec fn triple_view(t: Option<RealTriple>) -> Option<
    (Seq<char>, Seq<char>, Seq<char>),
> {
    match t {
        Some(triple) => Some(triple@),
        None => None,
    }
}

pub open spec fn entity_views(list: Seq<Entity>) -> Seq<(u64, Seq<char>)> {
    list.map_values(|e: Entity| e@)
}

fn append_chars(out: &mut Vec<char>, s: &[char])
    ensures
        final(out)@ == old(out)@ + s@,
{
    let mut i: usize = 0;
    let ghost start = out@;
    while i < s.len()
        invariant
            i <= s.len(),
            out@ == start + s@.take(i as int),
        decreases s.len() - i,
    {
        out.push(s[i]);
        i += 1;
        assert(s@.take(i as int) =~= s@.take(i - 1).push(s@[i - 1]));
    }
    assert(s@.take(s.len() as int) =~= s@);
}

/// The text of a STEP file with its lines joined, as characters.
fn join_lines(raw: &[char]) -> (r: Vec<char>)
    ensures
        r@ == joined_text(raw@),
{
    let lines = split_at_char(raw, '\n');
    let ghost all = text::split(raw@, '\n');
    let mut out: Vec<char> = Vec::new();
    let mut i: usize = 0;
    while i < lines.len()
        invariant
            i <= lines.len(),
            lines@.len() == all.len(),
            forall|k: int| 0 <= k < lines@.len() ==> (#[trigger] lines@[k])@ == all[k],
            out@ == joined(all.take(i as int)),
        decreases lines.len() - i,
    {
        let line = trimmed(lines[i]);
        assert(all.take(i + 1).drop_last() =~= all.take(i as int));
        assert(all.take(i + 1).last() == all[i as int]);
        if line.len() > 0 {
            if out.len() > 0 && out[out.len() - 1] != ';' {
                out.push(' ');
            }
            append_chars(&mut out, line);
        }
        i += 1;
    }
    assert(all.take(all.len() as int) =~= all);
    out
}

/// Joins the lines of a STEP file, so that each entity stands in one piece.
pub fn preprocess_step_entities(raw: &str) -> (r: String)
    ensures
        r@ == joined_text(raw@),
{
    let chars = chars_of(raw);
    let out = join_lines(chars.as_slice());
    string_of(out.as_slice())
}

fn read_entity(part: &[char]) -> (r: Option<Entity>)
    ensures
        match r {
            Some(entity) => entity_of(part@) == Some(entity@),
            None => entity_of(part@) is None,
        },
{
    let whole = trimmed(part);
    if whole.len() == 0 || whole[0] != '#' {
        return None;
    }
    let rest = slice_subrange(whole, 1, whole.len());
    assert(rest@ =~= whole@.drop_first());
    match find(rest, '=') {
        None => None,
        Some(equals) => {
            let number = slice_subrange(rest, 0, equals);
            assert(number@ =~= rest@.take(equals as int));
            let tail = slice_subrange(rest, equals + 1, rest.len());
            assert(tail@ =~= rest@.skip(equals + 1));
            match parse_u64(trimmed(number)) {
                None => None,
                Some(id) => {
                    let mut text: Vec<char> = Vec::new();
                    append_chars(&mut text, trimmed(tail));
                    assert(text@ =~= text::trim(tail@));
                    Some(Entity { id, text })
                },
            }
        },
    }
}

/// The entities of a STEP file, in the order in which they stand there.
pub fn step_entities(raw: &str) -> (r: Vec<Entity>)
    ensures
        entity_views(r@) == file_entities(raw@),
{
    let chars = chars_of(raw);
    let text = join_lines(chars.as_slice());
    let parts = split_at_char(text.as_slice(), ';');
    let ghost all = text::split(joined_text(raw@), ';');
    let mut out: Vec<Entity> = Vec::new();
    let mut i: usize = 0;
    assert(entity_views(out@) =~= entities_of(all.take(0)));
    while i < parts.len()
        invariant
            i <= parts.len(),
            parts@.len() == all.len(),
            forall|k: int| 0 <= k < parts@.len() ==> (#[trigger] parts@[k])@ == all[k],
            entity_views(out@) == entities_of(all.take(i as int)),
        decreases parts.len() - i,
    {
        assert(all.take(i + 1).drop_last() =~= all.take(i as int));
        assert(all.take(i + 1).last() == all[i as int]);
        let ghost before = out@;
        if let Some(entity) = read_entity(parts[i]) {
            out.push(entity);
            assert(entity_views(out@) =~= entity_views(before).push(entity@));
        }
        i += 1;
    }
    assert(all.take(all.len() as int) =~= all);
    out
}

/// The numbers of the references `#number` in a text, from left to right.
pub fn parse_hash_refs(s: &str) -> (r: Vec<u64>)
    ensures
        r@ == hash_refs(s@),
{
    let chars = chars_of(s);
    references(chars.as_slice())
}

/// The references in a text of characters.
pub fn references(s: &[char]) -> (r: Vec<u64>)
    ensures
        r@ == hash_refs(s@),
{
    let mut out: Vec<u64> = Vec::new();
    let mut i: usize = 0;
    assert(s@.skip(0) =~= s@);
    while i < s.len()
        invariant
            i <= s.len(),
            hash_refs(s@) == out@ + hash_refs(s@.skip(i as int)),
        decreases s.len() - i,
    {
        let ghost here = s@.skip(i as int);
        assert(here.drop_first() =~= s@.skip(i + 1));
        if s[i] == '#' {
            let tail = slice_subrange(s, i + 1, s.len());
            assert(tail@ =~= here.drop_first());
            let run = leading_digits(tail);
            let digits = slice_subrange(tail, 0, run);
            assert(digits@ =~= tail@.take(run as int));
            assert(tail@.skip(run as int) =~= s@.skip(i + 1 + run));
            let ghost before = out@;
            match parse_digits(digits) {
                Some(id) => {
                    out.push(id);
                    assert(before + (seq![id] + hash_refs(s@.skip(i + 1 + run))) =~= out@
                        + hash_refs(s@.skip(i + 1 + run)));
                },
                None => {},
            }
            i = i + 1 + run;
        } else {
            i += 1;
        }
    }
    assert(s@.skip(s.len() as int) =~= Seq::<char>::empty());
    assert(out@ + hash_refs(s@.skip(i as int)) =~= out@);
    out
}

fn add_fraction_digits(s: &[char]) -> (r: Vec<char>)
    ensures
        r@ == with_fraction_digit(s@),
{
    let mut out: Vec<char> = Vec::new();
    let mut i: usize = 0;
    assert(s@.skip(0) =~= s@);
    while i < s.len()
        invariant
            i <= s.len(),
            with_fraction_digit(s@) == out@ + with_fraction_digit(s@.skip(i as int)),
        decreases s.len() - i,
    {
        let ghost here = s@.skip(i as int);
        let ghost before = out@;
        if s[i] == '.' && i < s.len() - 1 && s[i + 1] == 'E' {
            assert(here.skip(2) =~= s@.skip(i + 2));
            out.push('.');
            out.push('0');
            out.push('E');
            i += 2;
            assert(before + (seq!['.', '0', 'E'] + with_fraction_digit(s@.skip(i as int)))
                =~= out@ + with_fraction_digit(s@.skip(i as int)));
        } else {
            assert(here.drop_first() =~= s@.skip(i + 1));
            out.push(s[i]);
            i += 1;
            assert(before + (seq![here[0]] + with_fraction_digit(s@.skip(i as int))) =~= out@
                + with_fraction_digit(s@.skip(i as int)));
        }
    }
    assert(s@.skip(s.len() as int) =~= Seq::<char>::empty());
    assert(out@ + with_fraction_digit(s@.skip(i as int)) =~= out@);
    out
}

fn reads_as(s: &[char], word: &[char]) -> (r: bool)
    ensures
        r == is_word(s@, word@),
{
    if s.len() != word.len() {
        return false;
    }
    let mut i: usize = 0;
    while i < s.len()
        invariant
            i <= s.len(),
            s.len() == word.len(),
            forall|k: int| 0 <= k < i ==> is_letter(#[trigger] s@[k], word@[k]),
        decreases s.len() - i,
    {
        let code: u32 = s[i] as u32;
        let letter: u32 = word[i] as u32;
        if s[i] != word[i] && (letter < 32 || code != letter - 32) {
            assert(!is_letter(s@[i as int], word@[i as int]));
            return false;
        }
        i += 1;
    }
    true
}

fn skip_sign(s: &[char]) -> (r: &[char])
    ensures
        r@ == without_sign(s@),
{
    if s.len() > 0 && (s[0] == '+' || s[0] == '-') {
        let rest = slice_subrange(s, 1, s.len());
        assert(rest@ =~= s@.drop_first());
        rest
    } else {
        s
    }
}

fn only_digits(s: &[char]) -> (r: bool)
    ensures
        r == text::all_digits(s@),
{
    let run = leading_digits(s);
    proof {
        text::lemma_digit_run(s@);
        assert(s@.take(s.len() as int) =~= s@);
    }
    run == s.len()
}

fn reads_as_exponent(s: &[char]) -> (r: bool)
    ensures
        r == is_exponent(s@),
{
    if s.len() == 0 || !(s[0] == 'e' || s[0] == 'E') {
        return false;
    }
    let tail = slice_subrange(s, 1, s.len());
    assert(tail@ =~= s@.drop_first());
    let power = skip_sign(tail);
    power.len() > 0 && only_digits(power)
}

fn reads_as_number(s: &[char]) -> (r: bool)
    ensures
        r == is_decimal_number(s@),
{
    let whole = leading_digits(s);
    let rest = slice_subrange(s, whole, s.len());
    assert(rest@ =~= s@.skip(whole as int));
    if rest.len() > 0 && rest[0] == '.' {
        let tail = slice_subrange(rest, 1, rest.len());
        assert(tail@ =~= rest@.drop_first());
        let fraction = leading_digits(tail);
        let end = slice_subrange(tail, fraction, tail.len());
        assert(end@ =~= rest@.skip(1 + fraction));
        (whole > 0 || fraction > 0) && (end.len() == 0 || reads_as_exponent(end))
    } else {
        whole > 0 && (rest.len() == 0 || reads_as_exponent(rest))
    }
}

fn reads_as_real(s: &[char]) -> (r: bool)
    ensures
        r == is_real(s@),
{
    let unsigned = skip_sign(s);
    let inf: [char; 3] = ['i', 'n', 'f'];
    let infinity: [char; 8] = ['i', 'n', 'f', 'i', 'n', 'i', 't', 'y'];
    let nan: [char; 3] = ['n', 'a', 'n'];
    assert(inf@ =~= seq!['i', 'n', 'f']);
    assert(infinity@ =~= seq!['i', 'n', 'f', 'i', 'n', 'i', 't', 'y']);
    assert(nan@ =~= seq!['n', 'a', 'n']);
    reads_as(unsigned, inf.as_slice()) || reads_as(unsigned, infinity.as_slice()) || reads_as(
        unsigned,
        nan.as_slice(),
    ) || reads_as_number(unsigned)
}

/// The decimal text of a real number as STEP writes it, such as `0.E+000`.
pub fn parse_step_float(s: &[char]) -> (r: Option<String>)
    ensures
        match r {
            Some(digits) => step_real(s@) == Some(digits@),
            None => step_real(s@) is None,
        },
{
    let digits = add_fraction_digits(trimmed(s));
    if reads_as_real(digits.as_slice()) {
        Some(string_of(digits.as_slice()))
    } else {
        None
    }
}

fn parse_triple(parts: &Vec<&[char]>, from: usize, Ghost(all): Ghost<Seq<Seq<char>>>) -> (r: Option<
    RealTriple,
>)
    requires
        from <= 1,
        parts@.len() == all.len(),
        forall|i: int| 0 <= i < parts@.len() ==> (#[trigger] parts@[i])@ == all[i],
    ensures
        triple_view(r) == real_triple(all, from as int),
{
    if parts.len() < from + 3 {
        return None;
    }
    match (
        parse_step_float(parts[from]),
        parse_step_float(parts[from + 1]),
        parse_step_float(parts[from + 2]),
    ) {
        (Some(x), Some(y), Some(z)) => Some(RealTriple { x, y, z }),
        _ => None,
    }
}

/// The coordinates of a point or direction.
pub fn parse_point_coords(s: &[char]) -> (r: Option<RealTriple>)
    ensures
        triple_view(r) == point_coords(s@),
{
    match find(s, ',') {
        None => None,
        Some(comma) => {
            let list = slice_subrange(s, comma + 1, s.len());
            assert(list@ =~= s@.skip(comma + 1));
            match find(list, '(') {
                None => None,
                Some(open) => {
                    let inner = slice_subrange(list, open + 1, list.len());
                    assert(inner@ =~= list@.skip(open + 1));
                    match find(inner, ')') {
                        None => None,
                        Some(close) => {
                            let coords = slice_subrange(inner, 0, close);
                            assert(coords@ =~= inner@.take(close as int));
                            let parts = split_at_char(coords, ',');
                            parse_triple(&parts, 0, Ghost(text::split(coords@, ',')))
                        },
                    }
                },
            }
        },
    }
}

/// The components of a colour.
pub fn parse_colour_components(s: &[char]) -> (r: Option<RealTriple>)
    ensures
        triple_view(r) == colour_components(s@),
{
    match find(s, '(') {
        None => None,
        Some(open) => {
            let inner = slice_subrange(s, open + 1, s.len());
            assert(inner@ =~= s@.skip(open + 1));
            match rfind(inner, ')') {
                None => None,
                Some(close) => {
                    let list = slice_subrange(inner, 0, close);
                    assert(list@ =~= inner@.take(close as int));
                    let parts = split_at_char(list, ',');
                    parse_triple(&parts, 1, Ghost(text::split(list@, ',')))
                },
            }
        },
    }
}

} // verus!
