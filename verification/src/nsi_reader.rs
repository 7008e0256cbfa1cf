//! A reader of the text of a scene: its lines, the words on them, and the
//! attributes that they give. What is written is what it reads.

use vstd::prelude::*;

use crate::nsi_export;
use crate::nsi_export::{NsiBrepSurfaceData, NsiBrepTrimData, NsiValue, RealText};
use crate::text;
use crate::written;

verus! {

/// The words of a line: what stands between blanks.
pub open spec fn words(line: Seq<char>) -> Seq<Seq<char>> {
    without_gaps(text::split(line, ' '))
}

pub open spec fn without_gaps(parts: Seq<Seq<char>>) -> Seq<Seq<char>>
    decreases parts.len(),
{
    if parts.len() == 0 {
        Seq::empty()
    } else if parts[0].len() == 0 {
        without_gaps(parts.drop_first())
    } else {
        seq![parts[0]] + without_gaps(parts.drop_first())
    }
}

/// The lines of a text, without what follows the last line end.
pub open spec fn lines(s: Seq<char>) -> Seq<Seq<char>> {
    text::split(s, '\n').drop_last()
}

/// A word in quotes.
pub open spec fn quoted(s: Seq<char>) -> Seq<char> {
    seq!['"'] + s + seq!['"']
}

/// What a line says of an attribute: its type, the number that is given for its
/// values, and the values.
pub ghost struct Attribute {
    pub kind: Seq<char>,
    pub count: Seq<char>,
    pub values: Seq<Seq<char>>,
}

/// The attribute that the words of a line give.
pub open spec fn attribute_of(w: Seq<Seq<char>>) -> Attribute {
    Attribute {
        kind: w[1],
        count: w[2],
        values: if w[3] == seq!['['] {
            w.subrange(4, w.len() - 1)
        } else {
            w.skip(3)
        },
    }
}

/// The attribute with the name: that of the first line that begins with it.
pub open spec fn find_attribute(lines: Seq<Seq<char>>, name: Seq<char>) -> Option<Attribute>
    decreases lines.len(),
{
    if lines.len() == 0 {
        None
    } else if words(lines[0]).len() > 3 && words(lines[0])[0] == quoted(name) {
        Some(attribute_of(words(lines[0])))
    } else {
        find_attribute(lines.drop_first(), name)
    }
}

pub open spec fn read_attribute(s: Seq<char>, name: Seq<char>) -> Option<Attribute> {
    find_attribute(lines(s), name)
}

/// A word that can stand on a line.
pub open spec fn is_word(s: Seq<char>) -> bool {
    s.len() > 0 && text::lacks(s, ' ') && text::lacks(s, '\n')
}

pub open spec fn are_words(list: Seq<Seq<char>>) -> bool {
    forall|i: int| 0 <= i < list.len() ==> is_word(#[trigger] list[i])
}

/// Words with a blank between them.
pub open spec fn spaced(list: Seq<Seq<char>>) -> Seq<char>
    decreases list.len(),
{
    if list.len() == 0 {
        Seq::empty()
    } else if list.len() == 1 {
        list[0]
    } else {
        list[0] + seq![' '] + spaced(list.drop_first())
    }
}

/// Lines with their ends.
pub open spec fn text_of_lines(list: Seq<Seq<char>>) -> Seq<char>
    decreases list.len(),
{
    if list.len() == 0 {
        Seq::empty()
    } else {
        list[0] + seq!['\n'] + text_of_lines(list.drop_first())
    }
}

proof fn lemma_lines_are_read(list: Seq<Seq<char>>)
    requires
        forall|i: int| 0 <= i < list.len() ==> text::lacks(#[trigger] list[i], '\n'),
    ensures
        lines(text_of_lines(list)) == list,
        text::split(text_of_lines(list), '\n').len() == list.len() + 1,
    decreases list.len(),
{
    if list.len() == 0 {
        text::lemma_split_whole(Seq::empty(), '\n');
        assert(lines(text_of_lines(list)) =~= list);
    } else {
        let rest = list.drop_first();
        assert forall|i: int| 0 <= i < rest.len() implies text::lacks(#[trigger] rest[i], '\n') by {
            assert(rest[i] == list[i + 1]);
        }
        lemma_lines_are_read(rest);
        assert(text::lacks(list[0], '\n'));
        written::lemma_split_first(list[0], '\n', text_of_lines(rest));
        let parts = text::split(text_of_lines(rest), '\n');
        assert((seq![list[0]] + parts).drop_last() =~= seq![list[0]] + parts.drop_last());
        assert(seq![list[0]] + rest =~= list);
    }
}

proof fn lemma_spaced_parts(list: Seq<Seq<char>>)
    requires
        are_words(list),
        list.len() > 0,
    ensures
        text::split(spaced(list), ' ') == list,
    decreases list.len(),
{
    assert(is_word(list[0]));
    if list.len() == 1 {
        text::lemma_split_whole(list[0], ' ');
        assert(seq![list[0]] =~= list);
    } else {
        let rest = list.drop_first();
        assert forall|i: int| 0 <= i < rest.len() implies is_word(#[trigger] rest[i]) by {
            assert(rest[i] == list[i + 1]);
        }
        lemma_spaced_parts(rest);
        written::lemma_split_first(list[0], ' ', spaced(rest));
        assert(seq![list[0]] + rest =~= list);
    }
}

proof fn lemma_no_gaps(list: Seq<Seq<char>>)
    requires
        are_words(list),
    ensures
        without_gaps(list) == list,
    decreases list.len(),
{
    if list.len() > 0 {
        let rest = list.drop_first();
        assert forall|i: int| 0 <= i < rest.len() implies is_word(#[trigger] rest[i]) by {
            assert(rest[i] == list[i + 1]);
        }
        lemma_no_gaps(rest);
        assert(is_word(list[0]));
        assert(seq![list[0]] + rest =~= list);
    } else {
        assert(list =~= Seq::empty());
    }
}

proof fn lemma_spaced_lacks(list: Seq<Seq<char>>)
    requires
        are_words(list),
    ensures
        text::lacks(spaced(list), '\n'),
    decreases list.len(),
{
    if list.len() > 0 {
        assert(is_word(list[0]));
        if list.len() > 1 {
            let rest = list.drop_first();
            assert forall|i: int| 0 <= i < rest.len() implies is_word(#[trigger] rest[i]) by {
                assert(rest[i] == list[i + 1]);
            }
            lemma_spaced_lacks(rest);
            written::lemma_joined_lacks(list[0], seq![' '], '\n');
            written::lemma_joined_lacks(list[0] + seq![' '], spaced(rest), '\n');
        }
    }
}

/// A line of an attribute: two blanks and its words.
pub open spec fn indented(list: Seq<Seq<char>>) -> Seq<char> {
    seq![' ', ' '] + spaced(list)
}

/// The words of a line are read.
proof fn lemma_words_are_read(list: Seq<Seq<char>>)
    requires
        are_words(list),
        list.len() > 0,
    ensures
        words(spaced(list)) == list,
        words(indented(list)) == list,
        text::lacks(spaced(list), '\n'),
        text::lacks(indented(list), '\n'),
{
    let none = Seq::<char>::empty();
    lemma_spaced_parts(list);
    lemma_no_gaps(list);
    lemma_spaced_lacks(list);
    written::lemma_joined_lacks(seq![' ', ' '], spaced(list), '\n');
    written::lemma_split_first(none, ' ', spaced(list));
    written::lemma_split_first(none, ' ', none + seq![' '] + spaced(list));
    assert(none + seq![' '] + (none + seq![' '] + spaced(list)) =~= indented(list));
    let parts = seq![none] + (seq![none] + list);
    assert(text::split(indented(list), ' ') == parts);
    assert(parts.drop_first() =~= seq![none] + list);
    assert((seq![none] + list).drop_first() =~= list);
    assert(without_gaps(seq![none] + list) == list);
    assert(without_gaps(parts) == list);
}

proof fn lemma_spaced_push(list: Seq<Seq<char>>, w: Seq<char>)
    requires
        list.len() > 0,
    ensures
        spaced(list.push(w)) == spaced(list) + seq![' '] + w,
    decreases list.len(),
{
    let all = list.push(w);
    let rest = list.drop_first();
    assert(all.drop_first() =~= rest.push(w));
    if list.len() == 1 {
        assert(rest.push(w)[0] == w);
        assert(spaced(rest.push(w)) == w);
        assert(spaced(list) == list[0]);
        assert(all[0] == list[0]);
    } else {
        lemma_spaced_push(rest, w);
        assert(spaced(all) =~= spaced(list) + seq![' '] + w);
    }
}

/// The texts of values.
pub open spec fn texts<T: NsiValue>(values: Seq<T>) -> Seq<Seq<char>> {
    Seq::new(values.len(), |i: int| values[i].nsi_text())
}

proof fn lemma_values_text<T: NsiValue>(head: Seq<Seq<char>>, out: Seq<char>, values: Seq<T>)
    requires
        head.len() > 0,
    ensures
        nsi_export::values_text(out + spaced(head), values) == out + spaced(head + texts(values)),
    decreases values.len(),
{
    reveal_strlit(" ");
    assert(" "@ =~= seq![' ']);
    if values.len() == 0 {
        assert(head + texts(values) =~= head);
    } else {
        let init = values.drop_last();
        lemma_values_text(head, out, init);
        let before = head + texts(init);
        lemma_spaced_push(before, values.last().nsi_text());
        assert(before.push(values.last().nsi_text()) =~= head + texts(values));
        assert(out + (spaced(before) + seq![' '] + values.last().nsi_text()) =~= out + spaced(
            before,
        ) + " "@ + values.last().nsi_text());
    }
}

/// The words of an attribute with one value.
pub open spec fn one_value(name: Seq<char>, kind: Seq<char>, value: Seq<char>) -> Seq<Seq<char>> {
    seq![quoted(name), quoted(kind), seq!['1'], value]
}

/// The words of an attribute with a list of values.
pub open spec fn many_values(
    name: Seq<char>,
    kind: Seq<char>,
    count: nat,
    values: Seq<Seq<char>>,
) -> Seq<Seq<char>> {
    seq![quoted(name), quoted(kind), text::decimal(count), seq!['[']] + values + seq![seq![']']]
}

proof fn lemma_spaced_four(a: Seq<char>, b: Seq<char>, c: Seq<char>, d: Seq<char>)
    ensures
        spaced(seq![a, b, c, d]) == a + seq![' '] + b + seq![' '] + c + seq![' '] + d,
{
    let l3 = seq![b, c, d];
    let l2 = seq![c, d];
    let l1 = seq![d];
    assert(seq![a, b, c, d].drop_first() =~= l3);
    assert(l3.drop_first() =~= l2);
    assert(l2.drop_first() =~= l1);
    assert(spaced(l1) == d);
    assert(spaced(l2) =~= c + seq![' '] + d);
    assert(spaced(l3) =~= b + seq![' '] + (c + seq![' '] + d));
    assert(spaced(seq![a, b, c, d]) =~= a + seq![' '] + b + seq![' '] + c + seq![' '] + d);
}

proof fn lemma_scalar_line(out: Seq<char>, name: Seq<char>, kind: Seq<char>, value: Seq<char>)
    ensures
        nsi_export::scalar_line(out, name, kind, value) == out + (indented(
            one_value(name, kind, value),
        ) + seq!['\n']),
{
    reveal_strlit("  \"");
    reveal_strlit("\" \"");
    reveal_strlit("\" 1 ");
    reveal_strlit("\n");
    lemma_spaced_four(quoted(name), quoted(kind), seq!['1'], value);
    assert("  \""@ =~= seq![' ', ' ', '"']);
    assert("\" \""@ =~= seq!['"', ' ', '"']);
    assert("\" 1 "@ =~= seq!['"', ' ', '1', ' ']);
    assert("\n"@ =~= seq!['\n']);
    assert(nsi_export::scalar_line(out, name, kind, value) =~= out + (indented(
        one_value(name, kind, value),
    ) + seq!['\n']));
}

proof fn lemma_list_head(name: Seq<char>, kind: Seq<char>, count: nat)
    ensures
        seq![' ', ' '] + spaced(
            seq![quoted(name), quoted(kind), text::decimal(count), seq!['[']],
        ) == "  \""@ + name + "\" \""@ + kind + "\" "@ + text::decimal(count) + " ["@,
{
    reveal_strlit("  \"");
    reveal_strlit("\" \"");
    reveal_strlit("\" ");
    reveal_strlit(" [");
    lemma_spaced_four(quoted(name), quoted(kind), text::decimal(count), seq!['[']);
    assert("  \""@ =~= seq![' ', ' ', '"']);
    assert("\" \""@ =~= seq!['"', ' ', '"']);
    assert("\" "@ =~= seq!['"', ' ']);
    assert(" ["@ =~= seq![' ', '[']);
    assert(seq![' ', ' '] + spaced(
        seq![quoted(name), quoted(kind), text::decimal(count), seq!['[']],
    ) =~= "  \""@ + name + "\" \""@ + kind + "\" "@ + text::decimal(count) + " ["@);
}

proof fn lemma_list_line<T: NsiValue>(
    out: Seq<char>,
    start: Seq<char>,
    name: Seq<char>,
    kind: Seq<char>,
    count: nat,
    values: Seq<T>,
)
    requires
        start == out + (seq![' ', ' '] + spaced(
            seq![quoted(name), quoted(kind), text::decimal(count), seq!['[']],
        )),
    ensures
        nsi_export::values_text(start, values) + " ]\n"@ == out + (indented(
            many_values(name, kind, count, texts(values)),
        ) + seq!['\n']),
{
    reveal_strlit(" ]\n");
    assert(" ]\n"@ =~= seq![' ', ']', '\n']);
    let head = seq![quoted(name), quoted(kind), text::decimal(count), seq!['[']];
    let pad = out + seq![' ', ' '];
    assert(start =~= pad + spaced(head));
    lemma_values_text(head, pad, values);
    lemma_spaced_push(head + texts(values), seq![']']);
    assert((head + texts(values)).push(seq![']']) =~= many_values(
        name,
        kind,
        count,
        texts(values),
    ));
    assert(nsi_export::values_text(start, values) + " ]\n"@ =~= out + (indented(
        many_values(name, kind, count, texts(values)),
    ) + seq!['\n']));
}

proof fn lemma_slice_line<T: NsiValue>(
    out: Seq<char>,
    name: Seq<char>,
    kind: Seq<char>,
    values: Seq<T>,
)
    ensures
        nsi_export::slice_line(out, name, kind, values) == out + (indented(
            many_values(name, kind, values.len(), texts(values)),
        ) + seq!['\n']),
{
    lemma_list_head(name, kind, values.len());
    let start = out + "  \""@ + name + "\" \""@ + kind + "\" "@ + text::decimal(values.len())
        + " ["@;
    assert(start =~= out + ("  \""@ + name + "\" \""@ + kind + "\" "@ + text::decimal(values.len())
        + " ["@));
    lemma_list_line(out, start, name, kind, values.len(), values);
}

/// Two texts are put one behind the other.
proof fn lemma_lines_push(list: Seq<Seq<char>>, line: Seq<char>)
    ensures
        text_of_lines(list.push(line)) == text_of_lines(list) + (line + seq!['\n']),
    decreases list.len(),
{
    let all = list.push(line);
    if list.len() == 0 {
        assert(all.drop_first() =~= Seq::empty());
        assert(text_of_lines(all.drop_first()) =~= Seq::empty());
        assert(text_of_lines(all) =~= text_of_lines(list) + (line + seq!['\n']));
    } else {
        lemma_lines_push(list.drop_first(), line);
        assert(all.drop_first() =~= list.drop_first().push(line));
        assert(text_of_lines(all) =~= text_of_lines(list) + (line + seq!['\n']));
    }
}

/// The attribute is found where a line gives it and none before does.
proof fn lemma_attribute_found(rows: Seq<Seq<Seq<char>>>, i: int, name: Seq<char>)
    requires
        0 <= i < rows.len(),
        forall|k: int| 0 <= k < rows.len() ==> are_words(#[trigger] rows[k]) && rows[k].len() > 3,
        rows[i][0] == quoted(name),
        forall|k: int| 0 <= k < i ==> (#[trigger] rows[k])[0] != quoted(name),
    ensures
        find_attribute(rows.map_values(|w: Seq<Seq<char>>| indented(w)), name) == Some(
            attribute_of(rows[i]),
        ),
    decreases i,
{
    let list = rows.map_values(|w: Seq<Seq<char>>| indented(w));
    assert(list[0] == indented(rows[0]));
    assert(are_words(rows[0]));
    lemma_words_are_read(rows[0]);
    if i > 0 {
        let rest = rows.drop_first();
        assert forall|k: int| 0 <= k < rest.len() implies are_words(#[trigger] rest[k])
            && rest[k].len() > 3 by {
            assert(rest[k] == rows[k + 1]);
        }
        assert forall|k: int| 0 <= k < i - 1 implies (#[trigger] rest[k])[0] != quoted(name) by {
            assert(rest[k] == rows[k + 1]);
        }
        assert(rest[i - 1] == rows[i]);
        lemma_attribute_found(rest, i - 1, name);
        assert(list.drop_first() =~= rest.map_values(|w: Seq<Seq<char>>| indented(w)));
        assert((rows[0])[0] != quoted(name));
    }
}

/// The text of the lines with these words.
pub open spec fn text_of_rows(rows: Seq<Seq<Seq<char>>>) -> Seq<char> {
    text_of_lines(rows.map_values(|w: Seq<Seq<char>>| indented(w)))
}

proof fn lemma_rows_push(rows: Seq<Seq<Seq<char>>>, row: Seq<Seq<char>>)
    ensures
        text_of_rows(rows.push(row)) == text_of_rows(rows) + (indented(row) + seq!['\n']),
{
    let list = rows.map_values(|w: Seq<Seq<char>>| indented(w));
    lemma_lines_push(list, indented(row));
    assert(rows.push(row).map_values(|w: Seq<Seq<char>>| indented(w)) =~= list.push(indented(row)));
}

/// The text is the other one with these lines behind it.
pub open spec fn adds_rows(out: Seq<char>, start: Seq<char>, rows: Seq<Seq<Seq<char>>>) -> bool {
    out == start + text_of_rows(rows)
}

proof fn lemma_adds_row(
    out: Seq<char>,
    start: Seq<char>,
    rows: Seq<Seq<Seq<char>>>,
    row: Seq<Seq<char>>,
)
    requires
        adds_rows(out, start, rows),
    ensures
        adds_rows(out + (indented(row) + seq!['\n']), start, rows.push(row)),
{
    lemma_rows_push(rows, row);
    assert(start + text_of_rows(rows) + (indented(row) + seq!['\n']) =~= start + (text_of_rows(rows)
        + (indented(row) + seq!['\n'])));
}

proof fn lemma_rows_found(rows: Seq<Seq<Seq<char>>>, i: int, name: Seq<char>)
    requires
        0 <= i < rows.len(),
        forall|k: int| 0 <= k < rows.len() ==> are_words(#[trigger] rows[k]) && rows[k].len() > 3,
        rows[i][0] == quoted(name),
        forall|k: int| 0 <= k < i ==> (#[trigger] rows[k])[0] != quoted(name),
    ensures
        read_attribute(text_of_rows(rows), name) == Some(attribute_of(rows[i])),
{
    let list = rows.map_values(|w: Seq<Seq<char>>| indented(w));
    assert forall|k: int| 0 <= k < list.len() implies text::lacks(#[trigger] list[k], '\n') by {
        assert(are_words(rows[k]));
        lemma_words_are_read(rows[k]);
    }
    lemma_lines_are_read(list);
    lemma_attribute_found(rows, i, name);
}

/// A text that can stand for a number.
pub open spec fn is_value(s: Seq<char>) -> bool {
    is_word(s) && s != seq!['[']
}

pub open spec fn are_values(list: Seq<RealText>) -> bool {
    forall|i: int| 0 <= i < list.len() ==> is_value((#[trigger] list[i]).text@)
}

/// All texts of numbers of a surface can stand in a scene.
pub open spec fn surface_is_clean(s: &NsiBrepSurfaceData<RealText>) -> bool {
    &&& are_values(s.uknot@)
    &&& are_values(s.vknot@)
    &&& is_value(s.umin.text@)
    &&& is_value(s.umax.text@)
    &&& is_value(s.vmin.text@)
    &&& is_value(s.vmax.text@)
    &&& forall|i: int, k: int|
        0 <= i < s.pw@.len() && 0 <= k < 4 ==> is_value((#[trigger] s.pw@[i]@[k]).text@)
}

pub open spec fn trims_are_clean(s: &NsiBrepTrimData<RealText>) -> bool {
    &&& are_values(s.knot@)
    &&& are_values(s.min@)
    &&& are_values(s.max@)
    &&& are_values(s.u@)
    &&& are_values(s.v@)
    &&& are_values(s.w@)
}

/// The attribute with the name is read with this type, number and values.
pub open spec fn gives(
    s: Seq<char>,
    name: Seq<char>,
    kind: Seq<char>,
    count: nat,
    values: Seq<Seq<char>>,
) -> bool {
    read_attribute(s, name) == Some(
        Attribute { kind: quoted(kind), count: text::decimal(count), values },
    )
}

/// The attribute with the name is read with the coordinates of the points, four
/// for each point, in their order.
pub open spec fn gives_points(
    s: Seq<char>,
    name: Seq<char>,
    kind: Seq<char>,
    points: Seq<[RealText; 4]>,
) -> bool {
    match read_attribute(s, name) {
        Some(a) => {
            &&& a.kind == quoted(kind)
            &&& a.count == text::decimal(4 * points.len())
            &&& a.values.len() == 4 * points.len()
            &&& forall|i: int, k: int|
                0 <= i < points.len() && 0 <= k < 4 ==> a.values[4 * i + k] == (
                #[trigger] points[i]@[k]).text@
        },
        None => false,
    }
}

proof fn lemma_quoted_differ(a: Seq<char>, b: Seq<char>)
    requires
        a != b,
    ensures
        quoted(a) != quoted(b),
{
    if quoted(a) == quoted(b) {
        assert(quoted(a).subrange(1, a.len() as int + 1) =~= a);
        assert(quoted(b).subrange(1, b.len() as int + 1) =~= b);
        assert(quoted(a).len() == quoted(b).len());
    }
}

proof fn lemma_quoted_is_word(s: Seq<char>)
    requires
        text::lacks(s, ' '),
        text::lacks(s, '\n'),
    ensures
        is_word(quoted(s)),
{
    written::lemma_joined_lacks(seq!['"'], s, ' ');
    written::lemma_joined_lacks(seq!['"'], s, '\n');
    written::lemma_joined_lacks(seq!['"'] + s, seq!['"'], ' ');
    written::lemma_joined_lacks(seq!['"'] + s, seq!['"'], '\n');
}

proof fn lemma_kinds_are_words()
    ensures
        is_word("int"@),
        is_word("float"@),
{
    reveal_strlit("int");
    reveal_strlit("float");
}

proof fn lemma_digits_are_word(n: nat)
    ensures
        is_word(text::decimal(n)),
        text::decimal(n) != seq!['['],
{
    text::law_decimal_reads_back(n);
    let d = text::decimal(n);
    assert forall|i: int| 0 <= i < d.len() implies #[trigger] d[i] != ' ' && d[i] != '\n' && d[i]
        != '[' by {
        assert(text::is_digit(d[i]));
    }
    assert(d[0] != '[');
}

proof fn lemma_signed_is_word(n: int)
    ensures
        is_word(text::signed_decimal(n)),
        text::signed_decimal(n) != seq!['['],
{
    if n < 0 {
        lemma_digits_are_word((-n) as nat);
        let d = text::decimal((-n) as nat);
        written::lemma_joined_lacks(seq!['-'], d, ' ');
        written::lemma_joined_lacks(seq!['-'], d, '\n');
        assert(text::signed_decimal(n)[0] == '-');
    } else {
        lemma_digits_are_word(n as nat);
    }
}

proof fn lemma_ints_are_words(values: Seq<i32>)
    ensures
        are_words(texts(values)),
{
    assert forall|i: int| 0 <= i < values.len() implies is_word(#[trigger] texts(values)[i]) by {
        lemma_signed_is_word(values[i] as int);
    }
}

proof fn lemma_point_words(points: Seq<[RealText; 4]>)
    requires
        forall|i: int, k: int|
            0 <= i < points.len() && 0 <= k < 4 ==> is_value((#[trigger] points[i]@[k]).text@),
    ensures
        ({
            let v = texts(nsi_export::flat_points(points));
            &&& v.len() == 4 * points.len()
            &&& are_words(v)
            &&& forall|i: int, k: int|
                0 <= i < points.len() && 0 <= k < 4 ==> v[4 * i + k] == (
                #[trigger] points[i]@[k]).text@
        }),
    decreases points.len(),
{
    let v = texts(nsi_export::flat_points(points));
    if points.len() > 0 {
        let init = points.drop_last();
        let last = points.len() - 1;
        assert forall|i: int, k: int| 0 <= i < init.len() && 0 <= k < 4 implies is_value(
            (#[trigger] init[i]@[k]).text@,
        ) by {
            assert(is_value(points[i]@[k].text@));
        }
        lemma_point_words(init);
        let before = texts(nsi_export::flat_points(init));
        assert forall|i: int, k: int| 0 <= i < points.len() && 0 <= k < 4 implies v[4 * i + k] == (
        #[trigger] points[i]@[k]).text@ by {
            if i < last {
                assert(init[i]@[k] == points[i]@[k]);
                assert(v[4 * i + k] == before[4 * i + k]);
            }
        }
        assert forall|j: int| 0 <= j < v.len() implies is_word(#[trigger] v[j]) by {
            if j < before.len() {
                assert(v[j] == before[j]);
            } else {
                let k = j - before.len();
                assert(v[4 * last + k] == points[last]@[k].text@);
            }
        }
    }
}

proof fn lemma_one_value_words(name: Seq<char>, kind: Seq<char>, value: Seq<char>)
    requires
        is_word(name),
        is_word(kind),
        is_word(value),
    ensures
        are_words(one_value(name, kind, value)),
{
    lemma_quoted_is_word(name);
    lemma_quoted_is_word(kind);
}

proof fn lemma_many_values_words(
    name: Seq<char>,
    kind: Seq<char>,
    count: nat,
    values: Seq<Seq<char>>,
)
    requires
        is_word(name),
        is_word(kind),
        are_words(values),
    ensures
        are_words(many_values(name, kind, count, values)),
{
    lemma_quoted_is_word(name);
    lemma_quoted_is_word(kind);
    lemma_digits_are_word(count);
    let all = many_values(name, kind, count, values);
    assert forall|i: int| 0 <= i < all.len() implies is_word(#[trigger] all[i]) by {
        if 4 <= i < 4 + values.len() {
            assert(all[i] == values[i - 4]);
        }
    }
}

proof fn lemma_one_value_read(name: Seq<char>, kind: Seq<char>, value: Seq<char>)
    requires
        value != seq!['['],
    ensures
        attribute_of(one_value(name, kind, value)) == (Attribute {
            kind: quoted(kind),
            count: text::decimal(1),
            values: seq![value],
        }),
{
    assert(one_value(name, kind, value).skip(3) =~= seq![value]);
    assert(text::decimal(1) =~= seq!['1']);
}

proof fn lemma_many_values_read(
    name: Seq<char>,
    kind: Seq<char>,
    count: nat,
    values: Seq<Seq<char>>,
)
    ensures
        attribute_of(many_values(name, kind, count, values)) == (Attribute {
            kind: quoted(kind),
            count: text::decimal(count),
            values,
        }),
{
    let w = many_values(name, kind, count, values);
    assert(w.subrange(4, w.len() - 1) =~= values);
}

proof fn lemma_pw_line(out: Seq<char>, points: Seq<[RealText; 4]>)
    ensures
        nsi_export::pw_line(out, points) == out + (indented(
            many_values("Pw"@, "float"@, 4 * points.len(), texts(nsi_export::flat_points(points))),
        ) + seq!['\n']),
{
    reveal_strlit("  \"Pw\" \"float\" ");
    reveal_strlit("Pw");
    reveal_strlit("float");
    reveal_strlit(" [");
    let count = 4 * points.len();
    lemma_spaced_four(quoted("Pw"@), quoted("float"@), text::decimal(count), seq!['[']);
    let start = out + "  \"Pw\" \"float\" "@ + text::decimal((points.len() * 4) as nat) + " ["@;
    assert(" ["@ =~= seq![' ', '[']);
    assert("  \"Pw\" \"float\" "@ =~= seq![' ', ' '] + quoted("Pw"@) + seq![' '] + quoted("float"@)
        + seq![' ']);
    assert(start =~= out + (seq![' ', ' '] + spaced(
        seq![quoted("Pw"@), quoted("float"@), text::decimal(count), seq!['[']],
    )));
    lemma_list_line(out, start, "Pw"@, "float"@, count, nsi_export::flat_points(points));
}

proof fn lemma_adds_int(
    out: Seq<char>,
    start: Seq<char>,
    rows: Seq<Seq<Seq<char>>>,
    name: Seq<char>,
    value: i32,
)
    requires
        adds_rows(out, start, rows),
    ensures
        adds_rows(
            nsi_export::int_line(out, name, value),
            start,
            rows.push(one_value(name, "int"@, text::signed_decimal(value as int))),
        ),
{
    lemma_scalar_line(out, name, "int"@, text::signed_decimal(value as int));
    lemma_adds_row(out, start, rows, one_value(name, "int"@, text::signed_decimal(value as int)));
}

proof fn lemma_adds_float(
    out: Seq<char>,
    start: Seq<char>,
    rows: Seq<Seq<Seq<char>>>,
    name: Seq<char>,
    value: Seq<char>,
)
    requires
        adds_rows(out, start, rows),
    ensures
        adds_rows(
            nsi_export::float_line(out, name, value),
            start,
            rows.push(one_value(name, "float"@, value)),
        ),
{
    lemma_scalar_line(out, name, "float"@, value);
    lemma_adds_row(out, start, rows, one_value(name, "float"@, value));
}

proof fn lemma_adds_slice<T: NsiValue>(
    out: Seq<char>,
    start: Seq<char>,
    rows: Seq<Seq<Seq<char>>>,
    name: Seq<char>,
    kind: Seq<char>,
    values: Seq<T>,
)
    requires
        adds_rows(out, start, rows),
    ensures
        adds_rows(
            nsi_export::slice_line(out, name, kind, values),
            start,
            rows.push(many_values(name, kind, values.len(), texts(values))),
        ),
{
    lemma_slice_line(out, name, kind, values);
    lemma_adds_row(out, start, rows, many_values(name, kind, values.len(), texts(values)));
}

proof fn lemma_adds_points(
    out: Seq<char>,
    start: Seq<char>,
    rows: Seq<Seq<Seq<char>>>,
    points: Seq<[RealText; 4]>,
)
    requires
        adds_rows(out, start, rows),
    ensures
        adds_rows(
            nsi_export::pw_line(out, points),
            start,
            rows.push(
                many_values(
                    "Pw"@,
                    "float"@,
                    4 * points.len(),
                    texts(nsi_export::flat_points(points)),
                ),
            ),
        ),
{
    lemma_pw_line(out, points);
    lemma_adds_row(
        out,
        start,
        rows,
        many_values("Pw"@, "float"@, 4 * points.len(), texts(nsi_export::flat_points(points))),
    );
}

pub open spec fn surface_names() -> Seq<Seq<char>> {
    seq![
        "nu"@,
        "nv"@,
        "uorder"@,
        "vorder"@,
        "uknot"@,
        "vknot"@,
        "umin"@,
        "umax"@,
        "vmin"@,
        "vmax"@,
        "Pw"@,
    ]
}

/// The words of the lines of a surface.
spec fn surface_rows(s: &NsiBrepSurfaceData<RealText>) -> Seq<Seq<Seq<char>>> {
    seq![
        one_value("nu"@, "int"@, text::signed_decimal(s.nu as int)),
        one_value("nv"@, "int"@, text::signed_decimal(s.nv as int)),
        one_value("uorder"@, "int"@, text::signed_decimal(s.uorder as int)),
        one_value("vorder"@, "int"@, text::signed_decimal(s.vorder as int)),
        many_values("uknot"@, "float"@, s.uknot@.len(), texts(s.uknot@)),
        many_values("vknot"@, "float"@, s.vknot@.len(), texts(s.vknot@)),
        one_value("umin"@, "float"@, s.umin.text@),
        one_value("umax"@, "float"@, s.umax.text@),
        one_value("vmin"@, "float"@, s.vmin.text@),
        one_value("vmax"@, "float"@, s.vmax.text@),
        many_values("Pw"@, "float"@, 4 * s.pw@.len(), texts(nsi_export::flat_points(s.pw@))),
    ]
}

proof fn lemma_surface_names()
    ensures
        surface_names().len() == 11,
        forall|i: int, j: int|
            0 <= i < j < 11 ==> #[trigger] surface_names()[i] != #[trigger] surface_names()[j],
        forall|i: int| 0 <= i < 11 ==> is_word(#[trigger] surface_names()[i]),
{
    reveal_strlit("nu");
    reveal_strlit("nv");
    reveal_strlit("uorder");
    reveal_strlit("vorder");
    reveal_strlit("uknot");
    reveal_strlit("vknot");
    reveal_strlit("umin");
    reveal_strlit("umax");
    reveal_strlit("vmin");
    reveal_strlit("vmax");
    reveal_strlit("Pw");
    assert("nu"@[1] != "nv"@[1]);
    assert(surface_names()[0] != surface_names()[1]);
    assert("nu"@.len() != "uorder"@.len());
    assert(surface_names()[0] != surface_names()[2]);
    assert("nu"@.len() != "vorder"@.len());
    assert(surface_names()[0] != surface_names()[3]);
    assert("nu"@.len() != "uknot"@.len());
    assert(surface_names()[0] != surface_names()[4]);
    assert("nu"@.len() != "vknot"@.len());
    assert(surface_names()[0] != surface_names()[5]);
    assert("nu"@.len() != "umin"@.len());
    assert(surface_names()[0] != surface_names()[6]);
    assert("nu"@.len() != "umax"@.len());
    assert(surface_names()[0] != surface_names()[7]);
    assert("nu"@.len() != "vmin"@.len());
    assert(surface_names()[0] != surface_names()[8]);
    assert("nu"@.len() != "vmax"@.len());
    assert(surface_names()[0] != surface_names()[9]);
    assert("nu"@[0] != "Pw"@[0]);
    assert(surface_names()[0] != surface_names()[10]);
    assert("nv"@.len() != "uorder"@.len());
    assert(surface_names()[1] != surface_names()[2]);
    assert("nv"@.len() != "vorder"@.len());
    assert(surface_names()[1] != surface_names()[3]);
    assert("nv"@.len() != "uknot"@.len());
    assert(surface_names()[1] != surface_names()[4]);
    assert("nv"@.len() != "vknot"@.len());
    assert(surface_names()[1] != surface_names()[5]);
    assert("nv"@.len() != "umin"@.len());
    assert(surface_names()[1] != surface_names()[6]);
    assert("nv"@.len() != "umax"@.len());
    assert(surface_names()[1] != surface_names()[7]);
    assert("nv"@.len() != "vmin"@.len());
    assert(surface_names()[1] != surface_names()[8]);
    assert("nv"@.len() != "vmax"@.len());
    assert(surface_names()[1] != surface_names()[9]);
    assert("nv"@[0] != "Pw"@[0]);
    assert(surface_names()[1] != surface_names()[10]);
    assert("uorder"@[0] != "vorder"@[0]);
    assert(surface_names()[2] != surface_names()[3]);
    assert("uorder"@.len() != "uknot"@.len());
    assert(surface_names()[2] != surface_names()[4]);
    assert("uorder"@.len() != "vknot"@.len());
    assert(surface_names()[2] != surface_names()[5]);
    assert("uorder"@.len() != "umin"@.len());
    assert(surface_names()[2] != surface_names()[6]);
    assert("uorder"@.len() != "umax"@.len());
    assert(surface_names()[2] != surface_names()[7]);
    assert("uorder"@.len() != "vmin"@.len());
    assert(surface_names()[2] != surface_names()[8]);
    assert("uorder"@.len() != "vmax"@.len());
    assert(surface_names()[2] != surface_names()[9]);
    assert("uorder"@.len() != "Pw"@.len());
    assert(surface_names()[2] != surface_names()[10]);
    assert("vorder"@.len() != "uknot"@.len());
    assert(surface_names()[3] != surface_names()[4]);
    assert("vorder"@.len() != "vknot"@.len());
    assert(surface_names()[3] != surface_names()[5]);
    assert("vorder"@.len() != "umin"@.len());
    assert(surface_names()[3] != surface_names()[6]);
    assert("vorder"@.len() != "umax"@.len());
    assert(surface_names()[3] != surface_names()[7]);
    assert("vorder"@.len() != "vmin"@.len());
    assert(surface_names()[3] != surface_names()[8]);
    assert("vorder"@.len() != "vmax"@.len());
    assert(surface_names()[3] != surface_names()[9]);
    assert("vorder"@.len() != "Pw"@.len());
    assert(surface_names()[3] != surface_names()[10]);
    assert("uknot"@[0] != "vknot"@[0]);
    assert(surface_names()[4] != surface_names()[5]);
    assert("uknot"@.len() != "umin"@.len());
    assert(surface_names()[4] != surface_names()[6]);
    assert("uknot"@.len() != "umax"@.len());
    assert(surface_names()[4] != surface_names()[7]);
    assert("uknot"@.len() != "vmin"@.len());
    assert(surface_names()[4] != surface_names()[8]);
    assert("uknot"@.len() != "vmax"@.len());
    assert(surface_names()[4] != surface_names()[9]);
    assert("uknot"@.len() != "Pw"@.len());
    assert(surface_names()[4] != surface_names()[10]);
    assert("vknot"@.len() != "umin"@.len());
    assert(surface_names()[5] != surface_names()[6]);
    assert("vknot"@.len() != "umax"@.len());
    assert(surface_names()[5] != surface_names()[7]);
    assert("vknot"@.len() != "vmin"@.len());
    assert(surface_names()[5] != surface_names()[8]);
    assert("vknot"@.len() != "vmax"@.len());
    assert(surface_names()[5] != surface_names()[9]);
    assert("vknot"@.len() != "Pw"@.len());
    assert(surface_names()[5] != surface_names()[10]);
    assert("umin"@[2] != "umax"@[2]);
    assert(surface_names()[6] != surface_names()[7]);
    assert("umin"@[0] != "vmin"@[0]);
    assert(surface_names()[6] != surface_names()[8]);
    assert("umin"@[0] != "vmax"@[0]);
    assert(surface_names()[6] != surface_names()[9]);
    assert("umin"@.len() != "Pw"@.len());
    assert(surface_names()[6] != surface_names()[10]);
    assert("umax"@[0] != "vmin"@[0]);
    assert(surface_names()[7] != surface_names()[8]);
    assert("umax"@[0] != "vmax"@[0]);
    assert(surface_names()[7] != surface_names()[9]);
    assert("umax"@.len() != "Pw"@.len());
    assert(surface_names()[7] != surface_names()[10]);
    assert("vmin"@[2] != "vmax"@[2]);
    assert(surface_names()[8] != surface_names()[9]);
    assert("vmin"@.len() != "Pw"@.len());
    assert(surface_names()[8] != surface_names()[10]);
    assert("vmax"@.len() != "Pw"@.len());
    assert(surface_names()[9] != surface_names()[10]);
}

proof fn lemma_surface_text(out: Seq<char>, s: &NsiBrepSurfaceData<RealText>)
    ensures
        adds_rows(nsi_export::surface_lines(out, s), out, surface_rows(s)),
{
    let o0 = out;
    let none = Seq::<Seq<Seq<char>>>::empty();
    assert(none.map_values(|w: Seq<Seq<char>>| indented(w)) =~= Seq::empty());
    assert(out + text_of_rows(none) =~= out);
    let r0 = none;
    let o1 = nsi_export::int_line(o0, "nu"@, s.nu);
    let r1 = r0.push(one_value("nu"@, "int"@, text::signed_decimal(s.nu as int)));
    lemma_adds_int(o0, out, r0, "nu"@, s.nu);
    let o2 = nsi_export::int_line(o1, "nv"@, s.nv);
    let r2 = r1.push(one_value("nv"@, "int"@, text::signed_decimal(s.nv as int)));
    lemma_adds_int(o1, out, r1, "nv"@, s.nv);
    let o3 = nsi_export::int_line(o2, "uorder"@, s.uorder);
    let r3 = r2.push(one_value("uorder"@, "int"@, text::signed_decimal(s.uorder as int)));
    lemma_adds_int(o2, out, r2, "uorder"@, s.uorder);
    let o4 = nsi_export::int_line(o3, "vorder"@, s.vorder);
    let r4 = r3.push(one_value("vorder"@, "int"@, text::signed_decimal(s.vorder as int)));
    lemma_adds_int(o3, out, r3, "vorder"@, s.vorder);
    let o5 = nsi_export::slice_line(o4, "uknot"@, "float"@, s.uknot@);
    let r5 = r4.push(many_values("uknot"@, "float"@, s.uknot@.len(), texts(s.uknot@)));
    lemma_adds_slice(o4, out, r4, "uknot"@, "float"@, s.uknot@);
    let o6 = nsi_export::slice_line(o5, "vknot"@, "float"@, s.vknot@);
    let r6 = r5.push(many_values("vknot"@, "float"@, s.vknot@.len(), texts(s.vknot@)));
    lemma_adds_slice(o5, out, r5, "vknot"@, "float"@, s.vknot@);
    let o7 = nsi_export::float_line(o6, "umin"@, s.umin.text@);
    let r7 = r6.push(one_value("umin"@, "float"@, s.umin.text@));
    lemma_adds_float(o6, out, r6, "umin"@, s.umin.text@);
    let o8 = nsi_export::float_line(o7, "umax"@, s.umax.text@);
    let r8 = r7.push(one_value("umax"@, "float"@, s.umax.text@));
    lemma_adds_float(o7, out, r7, "umax"@, s.umax.text@);
    let o9 = nsi_export::float_line(o8, "vmin"@, s.vmin.text@);
    let r9 = r8.push(one_value("vmin"@, "float"@, s.vmin.text@));
    lemma_adds_float(o8, out, r8, "vmin"@, s.vmin.text@);
    let o10 = nsi_export::float_line(o9, "vmax"@, s.vmax.text@);
    let r10 = r9.push(one_value("vmax"@, "float"@, s.vmax.text@));
    lemma_adds_float(o9, out, r9, "vmax"@, s.vmax.text@);
    let o11 = nsi_export::pw_line(o10, s.pw@);
    let r11 = r10.push(many_values("Pw"@, "float"@, 4 * s.pw@.len(), texts(nsi_export::flat_points(s.pw@))));
    lemma_adds_points(o10, out, r10, s.pw@);
    assert(r11 =~= surface_rows(s));
}

proof fn lemma_surface_words(s: &NsiBrepSurfaceData<RealText>)
    requires
        surface_is_clean(s),
    ensures
        forall|k: int|
            0 <= k < 11 ==> are_words(#[trigger] surface_rows(s)[k]) && surface_rows(s)[k].len() > 3
                && surface_rows(s)[k][0] == quoted(surface_names()[k]),
{
    lemma_kinds_are_words();
    lemma_surface_names();
    assert(is_word(surface_names()[0]));
    assert(is_word(surface_names()[1]));
    assert(is_word(surface_names()[2]));
    assert(is_word(surface_names()[3]));
    assert(is_word(surface_names()[4]));
    assert(is_word(surface_names()[5]));
    assert(is_word(surface_names()[6]));
    assert(is_word(surface_names()[7]));
    assert(is_word(surface_names()[8]));
    assert(is_word(surface_names()[9]));
    assert(is_word(surface_names()[10]));
    lemma_signed_is_word(s.nu as int);
    lemma_signed_is_word(s.nv as int);
    lemma_signed_is_word(s.uorder as int);
    lemma_signed_is_word(s.vorder as int);
    lemma_point_words(s.pw@);
    lemma_one_value_words("nu"@, "int"@, text::signed_decimal(s.nu as int));
    lemma_one_value_words("nv"@, "int"@, text::signed_decimal(s.nv as int));
    lemma_one_value_words("uorder"@, "int"@, text::signed_decimal(s.uorder as int));
    lemma_one_value_words("vorder"@, "int"@, text::signed_decimal(s.vorder as int));
    lemma_many_values_words("uknot"@, "float"@, s.uknot@.len(), texts(s.uknot@));
    lemma_many_values_words("vknot"@, "float"@, s.vknot@.len(), texts(s.vknot@));
    lemma_one_value_words("umin"@, "float"@, s.umin.text@);
    lemma_one_value_words("umax"@, "float"@, s.umax.text@);
    lemma_one_value_words("vmin"@, "float"@, s.vmin.text@);
    lemma_one_value_words("vmax"@, "float"@, s.vmax.text@);
    lemma_many_values_words("Pw"@, "float"@, 4 * s.pw@.len(), texts(nsi_export::flat_points(s.pw@)));
}

/// What is written of a surface is read back by the names of its attributes:
/// each name has the type, the number and the values of its own field.
pub proof fn law_surface_reads_back(out: Seq<char>, s: &NsiBrepSurfaceData<RealText>)
    requires
        surface_is_clean(s),
    ensures
        out.is_prefix_of(nsi_export::surface_lines(out, s)),
        ({
            let t = nsi_export::surface_lines(out, s).skip(out.len() as int);
            &&& gives(t, "nu"@, "int"@, 1, seq![text::signed_decimal(s.nu as int)])
            &&& gives(t, "nv"@, "int"@, 1, seq![text::signed_decimal(s.nv as int)])
            &&& gives(t, "uorder"@, "int"@, 1, seq![text::signed_decimal(s.uorder as int)])
            &&& gives(t, "vorder"@, "int"@, 1, seq![text::signed_decimal(s.vorder as int)])
            &&& gives(t, "uknot"@, "float"@, s.uknot@.len(), texts(s.uknot@))
            &&& gives(t, "vknot"@, "float"@, s.vknot@.len(), texts(s.vknot@))
            &&& gives(t, "umin"@, "float"@, 1, seq![s.umin.text@])
            &&& gives(t, "umax"@, "float"@, 1, seq![s.umax.text@])
            &&& gives(t, "vmin"@, "float"@, 1, seq![s.vmin.text@])
            &&& gives(t, "vmax"@, "float"@, 1, seq![s.vmax.text@])
            &&& gives_points(t, "Pw"@, "float"@, s.pw@)
        }),
{
    let all = nsi_export::surface_lines(out, s);
    let rows = surface_rows(s);
    let t = all.skip(out.len() as int);
    lemma_surface_text(out, s);
    assert(all.take(out.len() as int) =~= out);
    assert(t =~= text_of_rows(rows));
    lemma_surface_words(s);
    lemma_surface_names();
    assert forall|i: int| 0 <= i < 11 implies read_attribute(t, #[trigger] surface_names()[i])
        == Some(attribute_of(rows[i])) by {
        assert forall|k: int| 0 <= k < i implies (#[trigger] rows[k])[0] != quoted(
            surface_names()[i],
        ) by {
            lemma_quoted_differ(surface_names()[k], surface_names()[i]);
        }
        lemma_rows_found(rows, i, surface_names()[i]);
    }
    assert(read_attribute(t, surface_names()[0]) == Some(attribute_of(rows[0])));
    lemma_signed_is_word(s.nu as int);
    lemma_one_value_read("nu"@, "int"@, text::signed_decimal(s.nu as int));
    assert(read_attribute(t, surface_names()[1]) == Some(attribute_of(rows[1])));
    lemma_signed_is_word(s.nv as int);
    lemma_one_value_read("nv"@, "int"@, text::signed_decimal(s.nv as int));
    assert(read_attribute(t, surface_names()[2]) == Some(attribute_of(rows[2])));
    lemma_signed_is_word(s.uorder as int);
    lemma_one_value_read("uorder"@, "int"@, text::signed_decimal(s.uorder as int));
    assert(read_attribute(t, surface_names()[3]) == Some(attribute_of(rows[3])));
    lemma_signed_is_word(s.vorder as int);
    lemma_one_value_read("vorder"@, "int"@, text::signed_decimal(s.vorder as int));
    assert(read_attribute(t, surface_names()[4]) == Some(attribute_of(rows[4])));
    lemma_many_values_read("uknot"@, "float"@, s.uknot@.len(), texts(s.uknot@));
    assert(read_attribute(t, surface_names()[5]) == Some(attribute_of(rows[5])));
    lemma_many_values_read("vknot"@, "float"@, s.vknot@.len(), texts(s.vknot@));
    assert(read_attribute(t, surface_names()[6]) == Some(attribute_of(rows[6])));
    lemma_one_value_read("umin"@, "float"@, s.umin.text@);
    assert(read_attribute(t, surface_names()[7]) == Some(attribute_of(rows[7])));
    lemma_one_value_read("umax"@, "float"@, s.umax.text@);
    assert(read_attribute(t, surface_names()[8]) == Some(attribute_of(rows[8])));
    lemma_one_value_read("vmin"@, "float"@, s.vmin.text@);
    assert(read_attribute(t, surface_names()[9]) == Some(attribute_of(rows[9])));
    lemma_one_value_read("vmax"@, "float"@, s.vmax.text@);
    assert(read_attribute(t, surface_names()[10]) == Some(attribute_of(rows[10])));
    lemma_many_values_read("Pw"@, "float"@, 4 * s.pw@.len(), texts(nsi_export::flat_points(s.pw@)));
    lemma_point_words(s.pw@);
}

pub open spec fn trim_names() -> Seq<Seq<char>> {
    seq![
        "trimcurves.nloops"@,
        "trimcurves.ncurves"@,
        "trimcurves.n"@,
        "trimcurves.order"@,
        "trimcurves.knot"@,
        "trimcurves.min"@,
        "trimcurves.max"@,
        "trimcurves.u"@,
        "trimcurves.v"@,
        "trimcurves.w"@,
        "trimcurves.sense"@,
    ]
}

/// The words of the lines of trim curves.
spec fn trim_rows(s: &NsiBrepTrimData<RealText>) -> Seq<Seq<Seq<char>>> {
    seq![
        one_value("trimcurves.nloops"@, "int"@, text::signed_decimal(s.nloops as int)),
        many_values("trimcurves.ncurves"@, "int"@, s.ncurves@.len(), texts(s.ncurves@)),
        many_values("trimcurves.n"@, "int"@, s.n@.len(), texts(s.n@)),
        many_values("trimcurves.order"@, "int"@, s.order@.len(), texts(s.order@)),
        many_values("trimcurves.knot"@, "float"@, s.knot@.len(), texts(s.knot@)),
        many_values("trimcurves.min"@, "float"@, s.min@.len(), texts(s.min@)),
        many_values("trimcurves.max"@, "float"@, s.max@.len(), texts(s.max@)),
        many_values("trimcurves.u"@, "float"@, s.u@.len(), texts(s.u@)),
        many_values("trimcurves.v"@, "float"@, s.v@.len(), texts(s.v@)),
        many_values("trimcurves.w"@, "float"@, s.w@.len(), texts(s.w@)),
        many_values("trimcurves.sense"@, "int"@, s.sense@.len(), texts(s.sense@)),
    ]
}

proof fn lemma_trim_names()
    ensures
        trim_names().len() == 11,
        forall|i: int, j: int|
            0 <= i < j < 11 ==> #[trigger] trim_names()[i] != #[trigger] trim_names()[j],
        forall|i: int| 0 <= i < 11 ==> is_word(#[trigger] trim_names()[i]),
{
    reveal_strlit("trimcurves.nloops");
    reveal_strlit("trimcurves.ncurves");
    reveal_strlit("trimcurves.n");
    reveal_strlit("trimcurves.order");
    reveal_strlit("trimcurves.knot");
    reveal_strlit("trimcurves.min");
    reveal_strlit("trimcurves.max");
    reveal_strlit("trimcurves.u");
    reveal_strlit("trimcurves.v");
    reveal_strlit("trimcurves.w");
    reveal_strlit("trimcurves.sense");
    assert("trimcurves.nloops"@.len() != "trimcurves.ncurves"@.len());
    assert(trim_names()[0] != trim_names()[1]);
    assert("trimcurves.nloops"@.len() != "trimcurves.n"@.len());
    assert(trim_names()[0] != trim_names()[2]);
    assert("trimcurves.nloops"@.len() != "trimcurves.order"@.len());
    assert(trim_names()[0] != trim_names()[3]);
    assert("trimcurves.nloops"@.len() != "trimcurves.knot"@.len());
    assert(trim_names()[0] != trim_names()[4]);
    assert("trimcurves.nloops"@.len() != "trimcurves.min"@.len());
    assert(trim_names()[0] != trim_names()[5]);
    assert("trimcurves.nloops"@.len() != "trimcurves.max"@.len());
    assert(trim_names()[0] != trim_names()[6]);
    assert("trimcurves.nloops"@.len() != "trimcurves.u"@.len());
    assert(trim_names()[0] != trim_names()[7]);
    assert("trimcurves.nloops"@.len() != "trimcurves.v"@.len());
    assert(trim_names()[0] != trim_names()[8]);
    assert("trimcurves.nloops"@.len() != "trimcurves.w"@.len());
    assert(trim_names()[0] != trim_names()[9]);
    assert("trimcurves.nloops"@.len() != "trimcurves.sense"@.len());
    assert(trim_names()[0] != trim_names()[10]);
    assert("trimcurves.ncurves"@.len() != "trimcurves.n"@.len());
    assert(trim_names()[1] != trim_names()[2]);
    assert("trimcurves.ncurves"@.len() != "trimcurves.order"@.len());
    assert(trim_names()[1] != trim_names()[3]);
    assert("trimcurves.ncurves"@.len() != "trimcurves.knot"@.len());
    assert(trim_names()[1] != trim_names()[4]);
    assert("trimcurves.ncurves"@.len() != "trimcurves.min"@.len());
    assert(trim_names()[1] != trim_names()[5]);
    assert("trimcurves.ncurves"@.len() != "trimcurves.max"@.len());
    assert(trim_names()[1] != trim_names()[6]);
    assert("trimcurves.ncurves"@.len() != "trimcurves.u"@.len());
    assert(trim_names()[1] != trim_names()[7]);
    assert("trimcurves.ncurves"@.len() != "trimcurves.v"@.len());
    assert(trim_names()[1] != trim_names()[8]);
    assert("trimcurves.ncurves"@.len() != "trimcurves.w"@.len());
    assert(trim_names()[1] != trim_names()[9]);
    assert("trimcurves.ncurves"@.len() != "trimcurves.sense"@.len());
    assert(trim_names()[1] != trim_names()[10]);
    assert("trimcurves.n"@.len() != "trimcurves.order"@.len());
    assert(trim_names()[2] != trim_names()[3]);
    assert("trimcurves.n"@.len() != "trimcurves.knot"@.len());
    assert(trim_names()[2] != trim_names()[4]);
    assert("trimcurves.n"@.len() != "trimcurves.min"@.len());
    assert(trim_names()[2] != trim_names()[5]);
    assert("trimcurves.n"@.len() != "trimcurves.max"@.len());
    assert(trim_names()[2] != trim_names()[6]);
    assert("trimcurves.n"@[11] != "trimcurves.u"@[11]);
    assert(trim_names()[2] != trim_names()[7]);
    assert("trimcurves.n"@[11] != "trimcurves.v"@[11]);
    assert(trim_names()[2] != trim_names()[8]);
    assert("trimcurves.n"@[11] != "trimcurves.w"@[11]);
    assert(trim_names()[2] != trim_names()[9]);
    assert("trimcurves.n"@.len() != "trimcurves.sense"@.len());
    assert(trim_names()[2] != trim_names()[10]);
    assert("trimcurves.order"@.len() != "trimcurves.knot"@.len());
    assert(trim_names()[3] != trim_names()[4]);
    assert("trimcurves.order"@.len() != "trimcurves.min"@.len());
    assert(trim_names()[3] != trim_names()[5]);
    assert("trimcurves.order"@.len() != "trimcurves.max"@.len());
    assert(trim_names()[3] != trim_names()[6]);
    assert("trimcurves.order"@.len() != "trimcurves.u"@.len());
    assert(trim_names()[3] != trim_names()[7]);
    assert("trimcurves.order"@.len() != "trimcurves.v"@.len());
    assert(trim_names()[3] != trim_names()[8]);
    assert("trimcurves.order"@.len() != "trimcurves.w"@.len());
    assert(trim_names()[3] != trim_names()[9]);
    assert("trimcurves.order"@[11] != "trimcurves.sense"@[11]);
    assert(trim_names()[3] != trim_names()[10]);
    assert("trimcurves.knot"@.len() != "trimcurves.min"@.len());
    assert(trim_names()[4] != trim_names()[5]);
    assert("trimcurves.knot"@.len() != "trimcurves.max"@.len());
    assert(trim_names()[4] != trim_names()[6]);
    assert("trimcurves.knot"@.len() != "trimcurves.u"@.len());
    assert(trim_names()[4] != trim_names()[7]);
    assert("trimcurves.knot"@.len() != "trimcurves.v"@.len());
    assert(trim_names()[4] != trim_names()[8]);
    assert("trimcurves.knot"@.len() != "trimcurves.w"@.len());
    assert(trim_names()[4] != trim_names()[9]);
    assert("trimcurves.knot"@.len() != "trimcurves.sense"@.len());
    assert(trim_names()[4] != trim_names()[10]);
    assert("trimcurves.min"@[12] != "trimcurves.max"@[12]);
    assert(trim_names()[5] != trim_names()[6]);
    assert("trimcurves.min"@.len() != "trimcurves.u"@.len());
    assert(trim_names()[5] != trim_names()[7]);
    assert("trimcurves.min"@.len() != "trimcurves.v"@.len());
    assert(trim_names()[5] != trim_names()[8]);
    assert("trimcurves.min"@.len() != "trimcurves.w"@.len());
    assert(trim_names()[5] != trim_names()[9]);
    assert("trimcurves.min"@.len() != "trimcurves.sense"@.len());
    assert(trim_names()[5] != trim_names()[10]);
    assert("trimcurves.max"@.len() != "trimcurves.u"@.len());
    assert(trim_names()[6] != trim_names()[7]);
    assert("trimcurves.max"@.len() != "trimcurves.v"@.len());
    assert(trim_names()[6] != trim_names()[8]);
    assert("trimcurves.max"@.len() != "trimcurves.w"@.len());
    assert(trim_names()[6] != trim_names()[9]);
    assert("trimcurves.max"@.len() != "trimcurves.sense"@.len());
    assert(trim_names()[6] != trim_names()[10]);
    assert("trimcurves.u"@[11] != "trimcurves.v"@[11]);
    assert(trim_names()[7] != trim_names()[8]);
    assert("trimcurves.u"@[11] != "trimcurves.w"@[11]);
    assert(trim_names()[7] != trim_names()[9]);
    assert("trimcurves.u"@.len() != "trimcurves.sense"@.len());
    assert(trim_names()[7] != trim_names()[10]);
    assert("trimcurves.v"@[11] != "trimcurves.w"@[11]);
    assert(trim_names()[8] != trim_names()[9]);
    assert("trimcurves.v"@.len() != "trimcurves.sense"@.len());
    assert(trim_names()[8] != trim_names()[10]);
    assert("trimcurves.w"@.len() != "trimcurves.sense"@.len());
    assert(trim_names()[9] != trim_names()[10]);
}

proof fn lemma_trim_text(out: Seq<char>, s: &NsiBrepTrimData<RealText>)
    ensures
        adds_rows(nsi_export::trim_lines(out, s), out, trim_rows(s)),
{
    let o0 = out;
    let none = Seq::<Seq<Seq<char>>>::empty();
    assert(none.map_values(|w: Seq<Seq<char>>| indented(w)) =~= Seq::empty());
    assert(out + text_of_rows(none) =~= out);
    let r0 = none;
    let o1 = nsi_export::int_line(o0, "trimcurves.nloops"@, s.nloops);
    let r1 = r0.push(one_value("trimcurves.nloops"@, "int"@, text::signed_decimal(s.nloops as int)));
    lemma_adds_int(o0, out, r0, "trimcurves.nloops"@, s.nloops);
    let o2 = nsi_export::slice_line(o1, "trimcurves.ncurves"@, "int"@, s.ncurves@);
    let r2 = r1.push(many_values("trimcurves.ncurves"@, "int"@, s.ncurves@.len(), texts(s.ncurves@)));
    lemma_adds_slice(o1, out, r1, "trimcurves.ncurves"@, "int"@, s.ncurves@);
    let o3 = nsi_export::slice_line(o2, "trimcurves.n"@, "int"@, s.n@);
    let r3 = r2.push(many_values("trimcurves.n"@, "int"@, s.n@.len(), texts(s.n@)));
    lemma_adds_slice(o2, out, r2, "trimcurves.n"@, "int"@, s.n@);
    let o4 = nsi_export::slice_line(o3, "trimcurves.order"@, "int"@, s.order@);
    let r4 = r3.push(many_values("trimcurves.order"@, "int"@, s.order@.len(), texts(s.order@)));
    lemma_adds_slice(o3, out, r3, "trimcurves.order"@, "int"@, s.order@);
    let o5 = nsi_export::slice_line(o4, "trimcurves.knot"@, "float"@, s.knot@);
    let r5 = r4.push(many_values("trimcurves.knot"@, "float"@, s.knot@.len(), texts(s.knot@)));
    lemma_adds_slice(o4, out, r4, "trimcurves.knot"@, "float"@, s.knot@);
    let o6 = nsi_export::slice_line(o5, "trimcurves.min"@, "float"@, s.min@);
    let r6 = r5.push(many_values("trimcurves.min"@, "float"@, s.min@.len(), texts(s.min@)));
    lemma_adds_slice(o5, out, r5, "trimcurves.min"@, "float"@, s.min@);
    let o7 = nsi_export::slice_line(o6, "trimcurves.max"@, "float"@, s.max@);
    let r7 = r6.push(many_values("trimcurves.max"@, "float"@, s.max@.len(), texts(s.max@)));
    lemma_adds_slice(o6, out, r6, "trimcurves.max"@, "float"@, s.max@);
    let o8 = nsi_export::slice_line(o7, "trimcurves.u"@, "float"@, s.u@);
    let r8 = r7.push(many_values("trimcurves.u"@, "float"@, s.u@.len(), texts(s.u@)));
    lemma_adds_slice(o7, out, r7, "trimcurves.u"@, "float"@, s.u@);
    let o9 = nsi_export::slice_line(o8, "trimcurves.v"@, "float"@, s.v@);
    let r9 = r8.push(many_values("trimcurves.v"@, "float"@, s.v@.len(), texts(s.v@)));
    lemma_adds_slice(o8, out, r8, "trimcurves.v"@, "float"@, s.v@);
    let o10 = nsi_export::slice_line(o9, "trimcurves.w"@, "float"@, s.w@);
    let r10 = r9.push(many_values("trimcurves.w"@, "float"@, s.w@.len(), texts(s.w@)));
    lemma_adds_slice(o9, out, r9, "trimcurves.w"@, "float"@, s.w@);
    let o11 = nsi_export::slice_line(o10, "trimcurves.sense"@, "int"@, s.sense@);
    let r11 = r10.push(many_values("trimcurves.sense"@, "int"@, s.sense@.len(), texts(s.sense@)));
    lemma_adds_slice(o10, out, r10, "trimcurves.sense"@, "int"@, s.sense@);
    assert(r11 =~= trim_rows(s));
}

proof fn lemma_trim_words(s: &NsiBrepTrimData<RealText>)
    requires
        trims_are_clean(s),
    ensures
        forall|k: int|
            0 <= k < 11 ==> are_words(#[trigger] trim_rows(s)[k]) && trim_rows(s)[k].len() > 3
                && trim_rows(s)[k][0] == quoted(trim_names()[k]),
{
    lemma_kinds_are_words();
    lemma_trim_names();
    assert(is_word(trim_names()[0]));
    assert(is_word(trim_names()[1]));
    assert(is_word(trim_names()[2]));
    assert(is_word(trim_names()[3]));
    assert(is_word(trim_names()[4]));
    assert(is_word(trim_names()[5]));
    assert(is_word(trim_names()[6]));
    assert(is_word(trim_names()[7]));
    assert(is_word(trim_names()[8]));
    assert(is_word(trim_names()[9]));
    assert(is_word(trim_names()[10]));
    lemma_signed_is_word(s.nloops as int);
    lemma_ints_are_words(s.ncurves@);
    lemma_ints_are_words(s.n@);
    lemma_ints_are_words(s.order@);
    lemma_ints_are_words(s.sense@);
    lemma_one_value_words("trimcurves.nloops"@, "int"@, text::signed_decimal(s.nloops as int));
    lemma_many_values_words("trimcurves.ncurves"@, "int"@, s.ncurves@.len(), texts(s.ncurves@));
    lemma_many_values_words("trimcurves.n"@, "int"@, s.n@.len(), texts(s.n@));
    lemma_many_values_words("trimcurves.order"@, "int"@, s.order@.len(), texts(s.order@));
    lemma_many_values_words("trimcurves.knot"@, "float"@, s.knot@.len(), texts(s.knot@));
    lemma_many_values_words("trimcurves.min"@, "float"@, s.min@.len(), texts(s.min@));
    lemma_many_values_words("trimcurves.max"@, "float"@, s.max@.len(), texts(s.max@));
    lemma_many_values_words("trimcurves.u"@, "float"@, s.u@.len(), texts(s.u@));
    lemma_many_values_words("trimcurves.v"@, "float"@, s.v@.len(), texts(s.v@));
    lemma_many_values_words("trimcurves.w"@, "float"@, s.w@.len(), texts(s.w@));
    lemma_many_values_words("trimcurves.sense"@, "int"@, s.sense@.len(), texts(s.sense@));
}

/// What is written of trim curves is read back by the names of the attributes:
/// each name has the type, the number and the values of its own field.
pub proof fn law_trims_read_back(out: Seq<char>, s: &NsiBrepTrimData<RealText>)
    requires
        trims_are_clean(s),
    ensures
        out.is_prefix_of(nsi_export::trim_lines(out, s)),
        ({
            let t = nsi_export::trim_lines(out, s).skip(out.len() as int);
            &&& gives(t, "trimcurves.nloops"@, "int"@, 1, seq![text::signed_decimal(s.nloops as int)])
            &&& gives(t, "trimcurves.ncurves"@, "int"@, s.ncurves@.len(), texts(s.ncurves@))
            &&& gives(t, "trimcurves.n"@, "int"@, s.n@.len(), texts(s.n@))
            &&& gives(t, "trimcurves.order"@, "int"@, s.order@.len(), texts(s.order@))
            &&& gives(t, "trimcurves.knot"@, "float"@, s.knot@.len(), texts(s.knot@))
            &&& gives(t, "trimcurves.min"@, "float"@, s.min@.len(), texts(s.min@))
            &&& gives(t, "trimcurves.max"@, "float"@, s.max@.len(), texts(s.max@))
            &&& gives(t, "trimcurves.u"@, "float"@, s.u@.len(), texts(s.u@))
            &&& gives(t, "trimcurves.v"@, "float"@, s.v@.len(), texts(s.v@))
            &&& gives(t, "trimcurves.w"@, "float"@, s.w@.len(), texts(s.w@))
            &&& gives(t, "trimcurves.sense"@, "int"@, s.sense@.len(), texts(s.sense@))
        }),
{
    let all = nsi_export::trim_lines(out, s);
    let rows = trim_rows(s);
    let t = all.skip(out.len() as int);
    lemma_trim_text(out, s);
    assert(all.take(out.len() as int) =~= out);
    assert(t =~= text_of_rows(rows));
    lemma_trim_words(s);
    lemma_trim_names();
    assert forall|i: int| 0 <= i < 11 implies read_attribute(t, #[trigger] trim_names()[i])
        == Some(attribute_of(rows[i])) by {
        assert forall|k: int| 0 <= k < i implies (#[trigger] rows[k])[0] != quoted(
            trim_names()[i],
        ) by {
            lemma_quoted_differ(trim_names()[k], trim_names()[i]);
        }
        lemma_rows_found(rows, i, trim_names()[i]);
    }
    assert(read_attribute(t, trim_names()[0]) == Some(attribute_of(rows[0])));
    lemma_signed_is_word(s.nloops as int);
    lemma_one_value_read("trimcurves.nloops"@, "int"@, text::signed_decimal(s.nloops as int));
    assert(read_attribute(t, trim_names()[1]) == Some(attribute_of(rows[1])));
    lemma_many_values_read("trimcurves.ncurves"@, "int"@, s.ncurves@.len(), texts(s.ncurves@));
    assert(read_attribute(t, trim_names()[2]) == Some(attribute_of(rows[2])));
    lemma_many_values_read("trimcurves.n"@, "int"@, s.n@.len(), texts(s.n@));
    assert(read_attribute(t, trim_names()[3]) == Some(attribute_of(rows[3])));
    lemma_many_values_read("trimcurves.order"@, "int"@, s.order@.len(), texts(s.order@));
    assert(read_attribute(t, trim_names()[4]) == Some(attribute_of(rows[4])));
    lemma_many_values_read("trimcurves.knot"@, "float"@, s.knot@.len(), texts(s.knot@));
    assert(read_attribute(t, trim_names()[5]) == Some(attribute_of(rows[5])));
    lemma_many_values_read("trimcurves.min"@, "float"@, s.min@.len(), texts(s.min@));
    assert(read_attribute(t, trim_names()[6]) == Some(attribute_of(rows[6])));
    lemma_many_values_read("trimcurves.max"@, "float"@, s.max@.len(), texts(s.max@));
    assert(read_attribute(t, trim_names()[7]) == Some(attribute_of(rows[7])));
    lemma_many_values_read("trimcurves.u"@, "float"@, s.u@.len(), texts(s.u@));
    assert(read_attribute(t, trim_names()[8]) == Some(attribute_of(rows[8])));
    lemma_many_values_read("trimcurves.v"@, "float"@, s.v@.len(), texts(s.v@));
    assert(read_attribute(t, trim_names()[9]) == Some(attribute_of(rows[9])));
    lemma_many_values_read("trimcurves.w"@, "float"@, s.w@.len(), texts(s.w@));
    assert(read_attribute(t, trim_names()[10]) == Some(attribute_of(rows[10])));
    lemma_many_values_read("trimcurves.sense"@, "int"@, s.sense@.len(), texts(s.sense@));
}

/// For a surface whose knots fit its direction, the number behind the name of
/// the knots is that of the control points and the order of that direction.
pub proof fn law_knot_counts_fit(out: Seq<char>, s: &NsiBrepSurfaceData<RealText>)
    requires
        surface_is_clean(s),
        s.nu >= 0,
        s.nv >= 0,
        s.uorder >= 0,
        s.vorder >= 0,
        s.uknot@.len() == s.nu + s.uorder,
        s.vknot@.len() == s.nv + s.vorder,
    ensures
        ({
            let t = nsi_export::surface_lines(out, s).skip(out.len() as int);
            &&& (read_attribute(t, "uknot"@)->0).count == text::decimal((s.nu + s.uorder) as nat)
            &&& (read_attribute(t, "vknot"@)->0).count == text::decimal((s.nv + s.vorder) as nat)
        }),
{
    law_surface_reads_back(out, s);
}

} // verus!
