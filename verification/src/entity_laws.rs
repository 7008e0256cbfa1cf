//! What holds of reading entities, whatever their type.

use vstd::prelude::*;

use crate::entities;
use crate::entities::RecordModel;
use crate::exchange::ParameterModel;
use crate::schema;
use crate::schema::{EntityType, Field};

verus! {

/// What is taken does not break the reading.
pub proof fn law_taken_parameters_do_not_break(f: Field, p: ParameterModel)
    ensures
        entities::is_taken(f, p) ==> !entities::breaks(f, p),
    decreases p, 1int,
{
    if entities::is_list_field(f) {
        match p {
            ParameterModel::List(items) => {
                entities::lemma_list_field(f, items);
                assert forall|i: int|
                    0 <= i < items.len() && entities::is_taken(
                        entities::element(f),
                        items[i],
                    ) implies !entities::breaks(entities::element(f), #[trigger] items[i]) by {
                    law_taken_parameters_do_not_break(entities::element(f), items[i]);
                }
            },
            _ => {},
        }
    } else {
        match f {
            Field::Ref(t) => {
                lemma_plain_is_no_entity(t, p);
                lemma_entities_do_not_break(t, p);
            },
            Field::OptionalRef(t) => {
                lemma_plain_is_no_entity(t, p);
                lemma_entities_do_not_break(t, p);
            },
            _ => {},
        }
    }
}

proof fn lemma_entities_do_not_break(t: EntityType, p: ParameterModel)
    ensures
        entities::is_entity(t, p) ==> !entities::breaks_entity(t, p),
        p is Ref || entities::is_missing(p) ==> !entities::breaks_entity(t, p),
    decreases p, 0int,
{
    match p {
        ParameterModel::List(items) => {
            let fields = schema::fields(t);
            entities::lemma_list_entity(t, items);
            assert forall|i: int|
                0 <= i < items.len() && items.len() == fields.len() && entities::is_taken(
                    fields[i],
                    items[i],
                ) implies !entities::breaks(fields[i], #[trigger] items[i]) by {
                law_taken_parameters_do_not_break(fields[i], items[i]);
            }
        },
        ParameterModel::Typed { keyword, parameter } => {
            match schema::inline_type(t, keyword) {
                Some(inner) => lemma_entities_do_not_break(inner, *parameter),
                None => {},
            }
        },
        _ => {},
    }
}

/// An enumeration stands somewhere in the parameter.
pub open spec fn has_enumeration(p: ParameterModel) -> bool
    decreases p,
{
    match p {
        ParameterModel::Enumeration(_) => true,
        ParameterModel::List(items) => exists|i: int|
            0 <= i < items.len() && has_enumeration(#[trigger] items[i]),
        ParameterModel::Typed { keyword, parameter } => has_enumeration(*parameter),
        _ => false,
    }
}

/// Only enumerations break the reading.
pub proof fn law_only_enumerations_break(f: Field, p: ParameterModel)
    ensures
        entities::breaks(f, p) ==> has_enumeration(p),
    decreases p, 1int,
{
    if entities::is_list_field(f) {
        match p {
            ParameterModel::List(items) => {
                entities::lemma_list_field(f, items);
                assert forall|i: int|
                    0 <= i < items.len() && entities::breaks(
                        entities::element(f),
                        #[trigger] items[i],
                    ) implies has_enumeration(items[i]) by {
                    law_only_enumerations_break(entities::element(f), items[i]);
                }
            },
            _ => {},
        }
    } else {
        match f {
            Field::Ref(t) => lemma_only_enumerations_break(t, p),
            Field::OptionalRef(t) => lemma_only_enumerations_break(t, p),
            _ => {},
        }
    }
}

proof fn lemma_only_enumerations_break(t: EntityType, p: ParameterModel)
    ensures
        entities::breaks_entity(t, p) ==> has_enumeration(p),
    decreases p, 0int,
{
    match p {
        ParameterModel::List(items) => {
            let fields = schema::fields(t);
            entities::lemma_list_entity(t, items);
            assert forall|i: int|
                0 <= i < items.len() && entities::breaks(
                    fields[i],
                    #[trigger] items[i],
                ) implies has_enumeration(items[i]) by {
                law_only_enumerations_break(fields[i], items[i]);
            }
        },
        ParameterModel::Typed { keyword, parameter } => {
            match schema::inline_type(t, keyword) {
                Some(inner) => lemma_only_enumerations_break(inner, *parameter),
                None => {},
            }
        },
        _ => {},
    }
}

/// A record without enumerations is read.
pub proof fn law_records_without_enumerations_are_read(record: RecordModel)
    requires
        !has_enumeration(record.parameter),
    ensures
        !entities::breaks_record(record),
{
    match schema::record_type(record.name) {
        Some(t) => lemma_only_enumerations_break(t, record.parameter),
        None => match schema::record_picks(record.name) {
            Some((count, picks)) => match record.parameter {
                ParameterModel::List(items) => {
                    if entities::breaks_picks(items, picks) {
                        let k = choose|k: int|
                            0 <= k < picks.len() && (#[trigger] picks[k]).place < items.len()
                                && entities::breaks(picks[k].field, items[picks[k].place as int])
                                && entities::takes_picks(items, picks.take(k));
                        law_only_enumerations_break(picks[k].field, items[picks[k].place as int]);
                    }
                },
                _ => {},
            },
            None => {},
        },
    }
}

/// What is not given is taken only for a field that may be left out, and text,
/// numbers, references and enumerations only for fields of their kind.
pub proof fn law_fields_take_their_kind(f: Field, p: ParameterModel)
    requires
        entities::is_taken(f, p),
    ensures
        entities::is_missing(p) ==> f is OptionalText || f is OptionalRef,
        p is Text ==> f is Text || f is OptionalText,
        p is Integer ==> f is Whole || f is Real,
        p is Real ==> f is Real,
        p is Ref ==> f is Ref || f is OptionalRef,
        p is Enumeration ==> f is Flag || entities::is_word_field(f),
{
    match f {
        Field::Ref(t) => lemma_plain_is_no_entity(t, p),
        Field::OptionalRef(t) => lemma_plain_is_no_entity(t, p),
        _ => {},
    }
}

proof fn lemma_plain_is_no_entity(t: EntityType, p: ParameterModel)
    ensures
        !(p is List) && !(p is Typed) ==> !entities::is_entity(t, p),
{
}

/// Text, numbers and references are taken for the fields of their kind, whatever
/// they hold, and a whole number is a real one too.
pub proof fn law_fields_take_all_of_their_kind(p: ParameterModel, t: EntityType)
    ensures
        p is Text ==> entities::is_taken(Field::Text, p) && entities::is_taken(
            Field::OptionalText,
            p,
        ),
        p is Integer ==> entities::is_taken(Field::Whole, p) && entities::is_taken(Field::Real, p),
        p is Real ==> entities::is_taken(Field::Real, p) && !entities::is_taken(Field::Whole, p),
        p is Ref ==> entities::is_taken(Field::Ref(t), p) && entities::is_taken(
            Field::OptionalRef(t),
            p,
        ),
        p is NotProvided || p is Omitted ==> entities::is_taken(Field::OptionalText, p)
            && entities::is_taken(Field::OptionalRef(t), p) && !entities::is_taken(Field::Ref(t), p),
{
    lemma_plain_is_no_entity(t, p);
}

/// A list is taken if and only if each of its items is: numbers for a list of
/// numbers, lists of numbers for rows of them, and so for references.
pub proof fn law_lists_take_their_items(items: Seq<ParameterModel>, t: EntityType)
    ensures
        entities::is_taken(Field::Wholes, ParameterModel::List(items)) <==> forall|i: int|
            0 <= i < items.len() ==> #[trigger] items[i] is Integer,
        entities::is_taken(Field::Reals, ParameterModel::List(items)) <==> forall|i: int|
            0 <= i < items.len() ==> #[trigger] items[i] is Integer || items[i] is Real,
        entities::is_taken(Field::RealRows, ParameterModel::List(items)) <==> forall|i: int|
            0 <= i < items.len() ==> entities::is_taken(Field::Reals, #[trigger] items[i]),
        entities::is_taken(Field::Refs(t), ParameterModel::List(items)) <==> forall|i: int|
            0 <= i < items.len() ==> entities::is_taken(Field::Ref(t), #[trigger] items[i]),
        entities::is_taken(Field::RefRows(t), ParameterModel::List(items)) <==> forall|i: int|
            0 <= i < items.len() ==> entities::is_taken(Field::Refs(t), #[trigger] items[i]),
{
    entities::lemma_list_field(Field::Wholes, items);
    entities::lemma_list_field(Field::Reals, items);
    entities::lemma_list_field(Field::RealRows, items);
    entities::lemma_list_field(Field::Refs(t), items);
    entities::lemma_list_field(Field::RefRows(t), items);
    assert forall|i: int| 0 <= i < items.len() implies (entities::is_taken(
        Field::Whole,
        #[trigger] items[i],
    ) <==> items[i] is Integer) by {}
    assert forall|i: int| 0 <= i < items.len() implies (entities::is_taken(
        Field::Real,
        #[trigger] items[i],
    ) <==> items[i] is Integer || items[i] is Real) by {}
}

/// The characters of a word that are no underscores.
pub open spec fn bare(w: Seq<char>) -> Seq<char> {
    w.filter(|c: char| c != '_')
}

proof fn lemma_bare_push(w: Seq<char>, c: char)
    ensures
        bare(w.push(c)) == if c == '_' {
            bare(w)
        } else {
            bare(w).push(c)
        },
{
    reveal(Seq::filter);
    assert(w.push(c).drop_last() =~= w);
}

/// Words are told by their letters and digits, which the normal form keeps. It
/// has an underscore only before a letter.
pub proof fn law_normal_words_keep_letters(w: Seq<char>, i: int)
    ensures
        bare(entities::normal_word(w)) == bare(w),
        0 <= i < entities::normal_word(w).len() && entities::normal_word(w)[i] == '_' ==> i + 1
            < entities::normal_word(w).len() && entities::is_capital(
            entities::normal_word(w)[i + 1],
        ),
    decreases w.len(),
{
    if w.len() > 0 {
        let init = w.drop_last();
        let before = entities::normal_word(init);
        law_normal_words_keep_letters(init, i);
        assert(w =~= init.push(w.last()));
        lemma_bare_push(init, w.last());
        lemma_bare_push(before, w.last());
        lemma_bare_push(before, '_');
        lemma_bare_push(before.push('_'), w.last());
    } else {
        assert(entities::normal_word(w) =~= w);
    }
}

/// A word of nothing but letters is its own normal form.
pub proof fn law_letters_in_a_row_stay(w: Seq<char>)
    requires
        forall|i: int| 0 <= i < w.len() ==> entities::is_capital(#[trigger] w[i]),
    ensures
        entities::normal_word(w) == w,
    decreases w.len(),
{
    if w.len() > 0 {
        let init = w.drop_last();
        assert forall|i: int| 0 <= i < init.len() implies entities::is_capital(
            #[trigger] init[i],
        ) by {
            assert(entities::is_capital(w[i]));
        }
        law_letters_in_a_row_stay(init);
        assert(entities::is_capital(w[w.len() - 1]));
        if w.len() > 1 {
            assert(entities::is_capital(w[w.len() - 2]));
        }
        assert(entities::normal_word(w) =~= w);
    }
}

} // verus!
