//! What is reported of an entity that is not accepted, said of the entity as it is written.

use vstd::prelude::*;

use crate::analyzed::{AnalyzedEntityView, AnalyzedFieldView};
use crate::definitions::{EntityDefView, FieldDefView, RawFieldTypeView};
use crate::diagnostics::Message;
use crate::identifier::IdentifierView;
use crate::laws::{lemma_no_ownership_problem, lemma_resolved, lemma_timestamps, lemma_types};
use crate::outcomes::{refers_to, relates_to};
use crate::ownership::{
    claim_test, lemma_group_kinds, lemma_groups, lemma_kind_counts, lemma_nominated_is_owner,
    lemma_owner_iff_settled, lemma_owner_is_nominated, many_test, nominated, one_test, same_target,
    settled,
};
use crate::rules::{
    belongs_to_owner, belongs_to_test, column_check, entity_analysis, group_of, group_owner,
    group_problems, groups, has_many_problem, key_type_check, leader_test, leaders, mark_check, marked_test, members, name_list,
    other_kind_test, points_at, relation_problems, resolved_field, resolved_fields, target_of,
    timestamp_check, type_check, with_owners,
};
use crate::sequences::{
    first_some, gathered, lemma_first_some, lemma_positions, lemma_positions_count, positions,
};
use crate::text::{decimal, joined, quoted};
use crate::types::FieldTypeView;
use crate::validity::{has_field, is_one_of, is_vec_of, marks_placed, types_known};

verus! {

/// A field that has the name of a generated column is reported at its name. It is the first such
/// field that is, and nothing else, whatever else is wrong with the entity.
pub proof fn law_generated_column_is_reported(names: Set<Seq<char>>, entity: EntityDefView, i: int)
    requires
        0 <= i < entity.fields.len(),
        forall|j: int|
            0 <= j < i ==> !((#[trigger] entity.fields[j]).name.text == "created_at"@
                && entity.attrs.has_created_at) && !(entity.fields[j].name.text == "updated_at"@
                && entity.attrs.has_updated_at),
    ensures
        entity.fields[i].name.text == "created_at"@ && entity.attrs.has_created_at
            ==> entity_analysis(names, entity) == Err::<AnalyzedEntityView, Seq<Message>>(
            seq![
                (
                    entity.fields[i].name.span,
                    "field 'created_at' is auto-generated. Use #[timestamps(none)] or #[timestamps(updated_at)] to declare it manually"@,
                ),
            ],
        ),
        entity.fields[i].name.text == "updated_at"@ && entity.attrs.has_updated_at
            ==> entity_analysis(names, entity) == Err::<AnalyzedEntityView, Seq<Message>>(
            seq![
                (
                    entity.fields[i].name.span,
                    "field 'updated_at' is auto-generated. Use #[timestamps(none)] or #[timestamps(created_at)] to declare it manually"@,
                ),
            ],
        ),
{
    let check = timestamp_check(entity.attrs, entity.fields);
    lemma_first_some(entity.fields.len(), check);
    assert("created_at"@ != "updated_at"@) by {
        reveal_strlit("created_at");
        reveal_strlit("updated_at");
        assert("created_at"@[0] != "updated_at"@[0]);
    }
    assert forall|j: int| 0 <= j < i implies #[trigger] check(j) is None by {
        assert(entity.fields[j].name.text == entity.fields[j].name.text);
    }
    if check(i) is Some {
        assert(first_some(entity.fields.len(), check) == check(i));
    }
}

/// A field whose type is neither a scalar nor the name of an entity is reported at that type. It is
/// the first such field that is, and nothing else.
pub proof fn law_unknown_type_is_reported(names: Set<Seq<char>>, entity: EntityDefView, i: int)
    requires
        forall|i: int|
            0 <= i < entity.fields.len() ==> {
                &&& (#[trigger] entity.fields[i]).name.text == "created_at"@
                    ==> !entity.attrs.has_created_at
                &&& entity.fields[i].name.text == "updated_at"@ ==> !entity.attrs.has_updated_at
            },
        0 <= i < entity.fields.len(),
        forall|j: int, name: Seq<char>|
            0 <= j < i && #[trigger] refers_to(entity.fields[j], name) ==> names.contains(name),
    ensures
        entity.fields[i].ty is Vec && !names.contains(entity.fields[i].ty->inner.text)
            ==> entity_analysis(names, entity) == Err::<AnalyzedEntityView, Seq<Message>>(
            seq![
                (
                    entity.fields[i].ty->inner.span,
                    "unknown entity '"@ + entity.fields[i].ty->inner.text + "' in Vec<"@
                        + entity.fields[i].ty->inner.text + ">. Did you define this entity?"@,
                ),
            ],
        ),
        entity.fields[i].ty is Unknown && !names.contains(
            entity.fields[i].ty->name.text,
        ) ==> entity_analysis(names, entity) == Err::<AnalyzedEntityView, Seq<Message>>(
            seq![
                (
                    entity.fields[i].ty->name.span,
                    "unknown type '"@ + entity.fields[i].ty->name.text
                        + "'. Use a scalar type (String, i32, etc.) or reference a defined entity."@,
                ),
            ],
        ),
{
    let check = type_check(names, entity.fields);
    lemma_timestamps(entity);
    lemma_first_some(entity.fields.len(), check);
    assert forall|j: int| 0 <= j < i implies #[trigger] check(j) is None by {
        match entity.fields[j].ty {
            RawFieldTypeView::Scalar { .. } => {},
            RawFieldTypeView::Vec { inner } => {
                assert(refers_to(entity.fields[j], inner.text));
            },
            RawFieldTypeView::Unknown { name, .. } => {
                assert(refers_to(entity.fields[j], name.text));
            },
        }
    }
    if check(i) is Some {
        assert(first_some(entity.fields.len(), check) == check(i));
    }
}

/// A mark on a field that does not name an entity is reported at the field. It is the first such
/// field that is, and nothing else.
pub proof fn law_misplaced_mark_is_reported(names: Set<Seq<char>>, entity: EntityDefView, i: int)
    requires
        forall|i: int|
            0 <= i < entity.fields.len() ==> {
                &&& (#[trigger] entity.fields[i]).name.text == "created_at"@
                    ==> !entity.attrs.has_created_at
                &&& entity.fields[i].name.text == "updated_at"@ ==> !entity.attrs.has_updated_at
            },
        forall|i: int|
            0 <= i < entity.fields.len() ==> match (#[trigger] entity.fields[i]).ty {
                RawFieldTypeView::Scalar { .. } => true,
                RawFieldTypeView::Vec { inner } => names.contains(inner.text),
                RawFieldTypeView::Unknown { name, .. } => names.contains(name.text),
            },
        0 <= i < entity.fields.len(),
        entity.fields[i].attrs.related,
        forall|j: int|
            0 <= j < i && (#[trigger] entity.fields[j]).attrs.related ==> entity.fields[j].ty
                is Unknown,
    ensures
        entity.fields[i].ty is Vec ==> entity_analysis(names, entity) == Err::<
            AnalyzedEntityView,
            Seq<Message>,
        >(
            seq![
                (
                    entity.fields[i].name.span,
                    "#[related] cannot be used on the has_many field '"@
                        + entity.fields[i].name.text
                        + "'; mark the belongs_to field that owns the foreign key instead"@,
                ),
            ],
        ),
        entity.fields[i].ty is Scalar ==> entity_analysis(names, entity) == Err::<
            AnalyzedEntityView,
            Seq<Message>,
        >(
            seq![
                (
                    entity.fields[i].name.span,
                    "#[related] can only be used on a relationship field, but '"@
                        + entity.fields[i].name.text + "' is a scalar"@,
                ),
            ],
        ),
{
    let raw = entity.fields;
    let fields = resolved_fields(names, raw);
    let check = mark_check(fields);
    lemma_timestamps(entity);
    lemma_types(names, raw);
    lemma_resolved(names, raw);
    lemma_first_some(fields.len(), check);
    assert forall|j: int| 0 <= j < i implies #[trigger] check(j) is None by {
        assert(fields[j].attrs == raw[j].attrs);
    }
    assert(fields[i].attrs == raw[i].attrs);
    if !(raw[i].ty is Unknown) {
        assert(first_some(fields.len(), check) == check(i));
    }
}

/// A primary key column that no field has the name of is reported at the entity. It is the first
/// such column that is, and nothing else.
pub proof fn law_missing_column_is_reported(names: Set<Seq<char>>, entity: EntityDefView, c: int)
    requires
        forall|i: int|
            0 <= i < entity.fields.len() ==> {
                &&& (#[trigger] entity.fields[i]).name.text == "created_at"@
                    ==> !entity.attrs.has_created_at
                &&& entity.fields[i].name.text == "updated_at"@ ==> !entity.attrs.has_updated_at
            },
        forall|i: int|
            0 <= i < entity.fields.len() ==> match (#[trigger] entity.fields[i]).ty {
                RawFieldTypeView::Scalar { .. } => true,
                RawFieldTypeView::Vec { inner } => names.contains(inner.text),
                RawFieldTypeView::Unknown { name, .. } => names.contains(name.text),
            },
        forall|i: int|
            0 <= i < entity.fields.len() && (#[trigger] entity.fields[i]).attrs.related
                ==> entity.fields[i].ty is Unknown,
        all_left_open(entity).len() == 0,
        entity.attrs.primary_key is Some,
        0 <= c < entity.attrs.primary_key->Some_0.len(),
        forall|b: int|
            0 <= b < c ==> has_field(
                entity.fields,
                #[trigger] entity.attrs.primary_key->Some_0[b],
            ),
        forall|i: int|
            0 <= i < entity.fields.len() ==> (#[trigger] entity.fields[i]).name.text
                != entity.attrs.primary_key->Some_0[c],
    ensures
        entity_analysis(names, entity) == Err::<AnalyzedEntityView, Seq<Message>>(
            seq![
                (
                    entity.name.span,
                    "primary_key column '"@ + entity.attrs.primary_key->Some_0[c]
                        + "' does not exist in entity '"@ + entity.name.text + "'"@,
                ),
            ],
        ),
{
    let raw = entity.fields;
    let columns = entity.attrs.primary_key->Some_0;
    let fields = with_owners(entity.name, resolved_fields(names, raw));
    let check = column_check(entity.name, fields, columns);
    lemma_timestamps(entity);
    lemma_types(names, raw);
    lemma_left_open(names, entity);
    lemma_resolved(names, raw);
    lemma_first_some(columns.len(), check);
    assert forall|i: int| 0 <= i < raw.len() implies (#[trigger] fields[i]).name == raw[i].name by {
        assert(resolved_fields(names, raw)[i].name == raw[i].name);
    }
    assert forall|b: int| 0 <= b < c implies #[trigger] check(b) is None by {
        assert(has_field(raw, columns[b]));
        let i = choose|i: int| 0 <= i < raw.len() && (#[trigger] raw[i]).name.text == columns[b];
        assert(fields[i].name.text == columns[b]);
    }
    assert(check(c) is Some);
    assert(first_some(columns.len(), check) == check(c));
}

/// A field of the primary key that is a relationship is reported at the field. It is the first such
/// field that is, and nothing else.
pub proof fn law_key_relationship_is_reported(names: Set<Seq<char>>, entity: EntityDefView, i: int)
    requires
        forall|i: int|
            0 <= i < entity.fields.len() ==> {
                &&& (#[trigger] entity.fields[i]).name.text == "created_at"@
                    ==> !entity.attrs.has_created_at
                &&& entity.fields[i].name.text == "updated_at"@ ==> !entity.attrs.has_updated_at
            },
        forall|i: int|
            0 <= i < entity.fields.len() ==> match (#[trigger] entity.fields[i]).ty {
                RawFieldTypeView::Scalar { .. } => true,
                RawFieldTypeView::Vec { inner } => names.contains(inner.text),
                RawFieldTypeView::Unknown { name, .. } => names.contains(name.text),
            },
        forall|i: int|
            0 <= i < entity.fields.len() && (#[trigger] entity.fields[i]).attrs.related
                ==> entity.fields[i].ty is Unknown,
        all_left_open(entity).len() == 0,
        entity.attrs.primary_key is Some,
        forall|c: int|
            0 <= c < entity.attrs.primary_key->Some_0.len() ==> has_field(
                entity.fields,
                #[trigger] entity.attrs.primary_key->Some_0[c],
            ),
        0 <= i < entity.fields.len(),
        entity.attrs.primary_key->Some_0.contains(entity.fields[i].name.text),
        !(entity.fields[i].ty is Scalar),
        forall|j: int|
            0 <= j < i && entity.attrs.primary_key->Some_0.contains(
                (#[trigger] entity.fields[j]).name.text,
            ) ==> entity.fields[j].ty is Scalar,
    ensures
        entity_analysis(names, entity) == Err::<AnalyzedEntityView, Seq<Message>>(
            seq![
                (
                    entity.fields[i].name.span,
                    "primary_key column '"@ + entity.fields[i].name.text
                        + "' must be a scalar type, not a relationship"@,
                ),
            ],
        ),
{
    let raw = entity.fields;
    let columns = entity.attrs.primary_key->Some_0;
    let fields = with_owners(entity.name, resolved_fields(names, raw));
    let missing = column_check(entity.name, fields, columns);
    let check = key_type_check(fields, columns);
    lemma_timestamps(entity);
    lemma_types(names, raw);
    lemma_left_open(names, entity);
    lemma_resolved(names, raw);
    lemma_first_some(columns.len(), missing);
    lemma_first_some(fields.len(), check);
    assert forall|k: int| 0 <= k < raw.len() implies (#[trigger] fields[k]).name == raw[k].name && (
    fields[k].ty is Scalar <==> raw[k].ty is Scalar) by {
        assert(resolved_fields(names, raw)[k].name == raw[k].name);
    }
    assert forall|c: int| 0 <= c < columns.len() implies #[trigger] missing(c) is None by {
        assert(has_field(raw, columns[c]));
        let k = choose|k: int| 0 <= k < raw.len() && (#[trigger] raw[k]).name.text == columns[c];
        assert(fields[k].name.text == columns[c]);
    }
    assert forall|j: int| 0 <= j < i implies #[trigger] check(j) is None by {
        assert(fields[j].name == raw[j].name);
    }
    assert(fields[i].name == raw[i].name);
    assert(check(i) is Some);
    assert(first_some(fields.len(), check) == check(i));
}

// ---- What is left open ----

/// The places of the fields that are `Vec`s of the named entity, in order.
pub open spec fn vec_places(fields: Seq<FieldDefView>, name: Seq<char>) -> Seq<int> {
    Seq::new(fields.len(), |i: int| i).filter(
        |i: int| refers_to(fields[i], name) && fields[i].ty is Vec,
    )
}

/// The places of the fields that name the entity, alone or in an `Option`, in order.
pub open spec fn one_places(fields: Seq<FieldDefView>, name: Seq<char>) -> Seq<int> {
    Seq::new(fields.len(), |i: int| i).filter(
        |i: int| refers_to(fields[i], name) && fields[i].ty is Unknown,
    )
}

/// Those of them that are marked.
pub open spec fn mark_places(fields: Seq<FieldDefView>, name: Seq<char>) -> Seq<int> {
    Seq::new(fields.len(), |i: int| i).filter(
        |i: int| refers_to(fields[i], name) && fields[i].ty is Unknown && fields[i].attrs.related,
    )
}

/// The names of the fields at the given places, each in quotes, separated by commas.
pub open spec fn names_at(fields: Seq<FieldDefView>, places: Seq<int>) -> Seq<char> {
    joined(places.map_values(|i: int| "'"@ + fields[i].name.text + "'"@), ", "@)
}

/// What the fields that refer to one entity leave open. Of several `Vec`s nothing more is said than
/// that. Of several others that are not marked a mark is asked for; and every mark but the first is
/// one too many.
pub open spec fn left_open(entity: EntityDefView, name: Seq<char>) -> Seq<Message> {
    let fields = entity.fields;
    let vecs = vec_places(fields, name);
    let ones = one_places(fields, name);
    let marks = mark_places(fields, name);
    if vecs.len() >= 2 {
        seq![
            (
                entity.name.span,
                "entity '"@ + entity.name.text + "' has "@ + decimal(vecs.len())
                    + " has_many fields referencing '"@ + name + "' ("@ + names_at(fields, vecs)
                    + "); this is not supported yet — SeaORM cannot distinguish them without an explicit foreign key"@,
            ),
        ]
    } else if ones.len() >= 2 && marks.len() == 0 {
        seq![
            (
                entity.name.span,
                "entity '"@ + entity.name.text + "' has "@ + decimal(ones.len())
                    + " fields referencing '"@ + name + "' ("@ + names_at(fields, ones)
                    + "); add #[related] to exactly one of them to choose which one find_related uses"@,
            ),
        ]
    } else if marks.len() >= 2 {
        Seq::new(
            (marks.len() - 1) as nat,
            |k: int|
                (
                    fields[marks[k + 1]].name.span,
                    "only one field per target may be marked #[related]; '"@ + name
                        + "' is already claimed by '"@ + fields[marks[0]].name.text + "'"@,
                ),
        )
    } else {
        seq![]
    }
}

/// The name that a field refers to; for a scalar it stands for nothing.
pub open spec fn referred(field: FieldDefView) -> Seq<char> {
    match field.ty {
        RawFieldTypeView::Scalar { .. } => seq![],
        RawFieldTypeView::Vec { inner } => inner.text,
        RawFieldTypeView::Unknown { name, .. } => name.text,
    }
}

/// The places of the fields that are the first to refer to an entity, in order.
pub open spec fn first_places(fields: Seq<FieldDefView>) -> Seq<int> {
    Seq::new(fields.len(), |i: int| i).filter(
        |i: int|
            !(fields[i].ty is Scalar) && forall|j: int|
                0 <= j < i ==> !refers_to(#[trigger] fields[j], referred(fields[i])),
    )
}

/// All that the fields of an entity leave open, for each entity that is referred to, in the order
/// in which these are first referred to.
pub open spec fn all_left_open(entity: EntityDefView) -> Seq<Message> {
    first_places(entity.fields).map_values(
        |i: int| left_open(entity, referred(entity.fields[i])),
    ).flatten()
}

/// Listing positions is filtering them.
proof fn lemma_positions_are_filtered(
    n: nat,
    test: spec_fn(int) -> bool,
    other: spec_fn(int) -> bool,
)
    requires
        forall|i: int| 0 <= i < n ==> #[trigger] test(i) == other(i),
    ensures
        positions(n, test) == Seq::new(n, |i: int| i).filter(other),
    decreases n,
{
    reveal(Seq::filter);
    let all = Seq::new(n, |i: int| i);
    if n > 0 {
        lemma_positions_are_filtered((n - 1) as nat, test, other);
        assert(all.drop_last() =~= Seq::new((n - 1) as nat, |i: int| i));
        assert(all.last() == n - 1);
        assert(test(n - 1) == other(n - 1));
    } else {
        assert(all.filter(other) =~= seq![]);
    }
}

/// Gathering lists is flattening them.
proof fn lemma_gathered_is_flat<A>(n: nat, lists: spec_fn(int) -> Seq<A>)
    ensures
        gathered(n, lists) == Seq::new(n, lists).flatten(),
    decreases n,
{
    let all = Seq::new(n, lists);
    if n > 0 {
        lemma_gathered_is_flat((n - 1) as nat, lists);
        let shorter = Seq::new((n - 1) as nat, lists);
        shorter.lemma_flatten_push(lists(n - 1));
        assert(all =~= shorter.push(lists(n - 1)));
    } else {
        assert(all.flatten() =~= seq![]);
    }
}

/// The fields of a group are those that refer to its target, kind by kind.
proof fn lemma_group_places(names: Set<Seq<char>>, raw: Seq<FieldDefView>, name: Seq<char>)
    requires
        types_known(names, raw),
    ensures
        ({
            let fields = resolved_fields(names, raw);
            &&& positions(raw.len(), many_test(fields, name)) == vec_places(raw, name)
            &&& positions(raw.len(), one_test(fields, name)) == one_places(raw, name)
            &&& positions(raw.len(), claim_test(fields, name)) == mark_places(raw, name)
        }),
{
    let fields = resolved_fields(names, raw);
    lemma_resolved(names, raw);
    assert forall|i: int| 0 <= i < raw.len() implies (points_at(#[trigger] fields[i], name)
        <==> refers_to(raw[i], name)) && fields[i].attrs == raw[i].attrs by {
        assert(points_at(fields[i], name) <==> is_vec_of(raw[i], name) || is_one_of(
            raw[i],
            name,
        ));
    }
    lemma_positions_are_filtered(
        raw.len(),
        many_test(fields, name),
        |i: int| refers_to(raw[i], name) && raw[i].ty is Vec,
    );
    lemma_positions_are_filtered(
        raw.len(),
        one_test(fields, name),
        |i: int| refers_to(raw[i], name) && raw[i].ty is Unknown,
    );
    lemma_positions_are_filtered(
        raw.len(),
        claim_test(fields, name),
        |i: int| refers_to(raw[i], name) && raw[i].ty is Unknown && raw[i].attrs.related,
    );
}

/// Lists of names are the same of written and of resolved fields.
proof fn lemma_names_at(
    names: Set<Seq<char>>,
    raw: Seq<FieldDefView>,
    test: spec_fn(int) -> bool,
)
    requires
        types_known(names, raw),
    ensures
        name_list(positions(raw.len(), test), resolved_fields(names, raw)) == names_at(
            raw,
            positions(raw.len(), test),
        ),
{
    let fields = resolved_fields(names, raw);
    let places = positions(raw.len(), test);
    lemma_resolved(names, raw);
    lemma_positions(raw.len(), test);
    assert forall|k: int| 0 <= k < places.len() implies 0 <= (#[trigger] places[k]) < raw.len()
        && fields[places[k]].name == raw[places[k]].name by {
        assert(places.contains(places[k]));
    }
    assert(places.map_values(|i: int| quoted(fields[i].name.text)) =~= places.map_values(
        |i: int| "'"@ + raw[i].name.text + "'"@,
    ));
}

/// What is wrong with a group is what the fields that refer to its target leave open.
proof fn lemma_group_leaves_open(names: Set<Seq<char>>, entity: EntityDefView, f: int)
    requires
        types_known(names, entity.fields),
        0 <= f < entity.fields.len(),
        !(entity.fields[f].ty is Scalar),
    ensures
        ({
            let fields = resolved_fields(names, entity.fields);
            let name = referred(entity.fields[f]);
            match group_owner(entity.name, name, members(fields, name), fields) {
                Ok(_) => left_open(entity, name) == Seq::<Message>::empty(),
                Err(messages) => left_open(entity, name) == messages,
            }
        }),
{
    let raw = entity.fields;
    let fields = resolved_fields(names, raw);
    let name = referred(raw[f]);
    let marks = mark_places(raw, name);
    lemma_resolved(names, raw);
    lemma_group_kinds(fields, name);
    lemma_group_places(names, raw, name);
    lemma_kind_counts(fields, name);
    lemma_names_at(names, raw, many_test(fields, name));
    lemma_names_at(names, raw, one_test(fields, name));
    lemma_positions_count(raw.len(), many_test(fields, name));
    lemma_positions_count(raw.len(), one_test(fields, name));
    assert(is_vec_of(raw[f], name) || is_one_of(raw[f], name));
    assert(points_at(fields[f], name));
    assert(many_test(fields, name)(f) || one_test(fields, name)(f));
    lemma_positions(raw.len(), claim_test(fields, name));
    assert forall|k: int| 0 <= k < marks.len() implies 0 <= (#[trigger] marks[k]) < raw.len()
        && fields[marks[k]].name == raw[marks[k]].name by {
        assert(marks.contains(marks[k]));
    }
    if vec_places(raw, name).len() < 2 && marks.len() >= 2 {
        let messages = group_owner(entity.name, name, members(fields, name), fields)->Err_0;
        assert(left_open(entity, name) =~= messages) by {
            assert forall|k: int| 0 <= k < marks.len() - 1 implies (#[trigger] messages[k])
                == left_open(entity, name)[k] by {
                assert(marks.drop_first()[k] == marks[k + 1]);
                assert(fields[marks[k + 1]].name == raw[marks[k + 1]].name);
                assert(fields[marks[0]].name == raw[marks[0]].name);
            }
        }
    }
}

/// What is wrong with the relationships of an entity is what it leaves open.
proof fn lemma_left_open(names: Set<Seq<char>>, entity: EntityDefView)
    requires
        types_known(names, entity.fields),
        marks_placed(entity.fields),
    ensures
        relation_problems(entity.name, resolved_fields(names, entity.fields)) == all_left_open(
            entity,
        ),
{
    let raw = entity.fields;
    let fields = resolved_fields(names, raw);
    let problems = group_problems(entity.name, fields);
    let check = mark_check(fields);
    lemma_resolved(names, raw);
    lemma_first_some(fields.len(), check);
    assert forall|i: int| 0 <= i < fields.len() implies #[trigger] check(i) is None by {
        assert(fields[i].attrs == raw[i].attrs);
    }
    let first = |i: int|
        !(raw[i].ty is Scalar) && forall|j: int|
            0 <= j < i ==> !refers_to(#[trigger] raw[j], referred(raw[i]));
    assert forall|i: int| 0 <= i < raw.len() implies #[trigger] leader_test(fields)(i) == first(
        i,
    ) by {
        assert(fields[i] == resolved_field(names, raw[i]));
        assert(fields[i].attrs == raw[i].attrs);
        if !(raw[i].ty is Scalar) {
            let name = referred(raw[i]);
            assert(is_vec_of(raw[i], name) || is_one_of(raw[i], name));
            assert(points_at(fields[i], name));
            assert((target_of(fields[i].ty)->Some_0).text == name);
            assert forall|j: int| 0 <= j < i implies (points_at(#[trigger] fields[j], name)
                <==> refers_to(raw[j], name)) by {
                assert(points_at(fields[j], name) <==> is_vec_of(raw[j], name) || is_one_of(
                    raw[j],
                    name,
                ));
            }
            if first(i) {
                assert forall|j: int| 0 <= j < i implies !points_at(
                    #[trigger] fields[j],
                    name,
                ) by {
                    assert(!refers_to(raw[j], name));
                }
            }
            if leader_test(fields)(i) {
                assert forall|j: int| 0 <= j < i implies !refers_to(#[trigger] raw[j], name) by {
                    assert(!points_at(fields[j], name));
                }
            }
        }
    }
    lemma_positions_are_filtered(raw.len(), leader_test(fields), first);
    assert(leaders(fields) == first_places(raw));
    lemma_groups(fields);
    let parts = first_places(raw).map_values(|i: int| left_open(entity, referred(raw[i])));
    assert forall|k: int| 0 <= k < groups(fields).len() implies #[trigger] problems(k)
        == parts[k] by {
        let i = leaders(fields)[k];
        assert(leader_test(fields)(i));
        assert(first(i));
        let name = referred(raw[i]);
        assert(is_vec_of(raw[i], name) || is_one_of(raw[i], name));
        assert(points_at(fields[i], name));
        assert(groups(fields)[k] == group_of(fields, i));
        lemma_group_leaves_open(names, entity, i);
    }
    lemma_gathered_is_flat(groups(fields).len(), problems);
    assert(Seq::new(groups(fields).len(), problems) =~= parts);
}

/// What an entity leaves open is reported, all of it in one go, where nothing comes before it.
pub proof fn law_what_is_left_open_is_reported(names: Set<Seq<char>>, entity: EntityDefView)
    requires
        forall|i: int|
            0 <= i < entity.fields.len() ==> {
                &&& (#[trigger] entity.fields[i]).name.text == "created_at"@
                    ==> !entity.attrs.has_created_at
                &&& entity.fields[i].name.text == "updated_at"@ ==> !entity.attrs.has_updated_at
            },
        forall|i: int|
            0 <= i < entity.fields.len() ==> match (#[trigger] entity.fields[i]).ty {
                RawFieldTypeView::Scalar { .. } => true,
                RawFieldTypeView::Vec { inner } => names.contains(inner.text),
                RawFieldTypeView::Unknown { name, .. } => names.contains(name.text),
            },
        forall|i: int|
            0 <= i < entity.fields.len() && (#[trigger] entity.fields[i]).attrs.related
                ==> entity.fields[i].ty is Unknown,
        all_left_open(entity).len() > 0,
    ensures
        entity_analysis(names, entity) == Err::<AnalyzedEntityView, Seq<Message>>(
            all_left_open(entity),
        ),
{
    lemma_timestamps(entity);
    lemma_types(names, entity.fields);
    lemma_left_open(names, entity);
}

// ---- Groups ----

/// What the number of elements that pass a test says of the elements.
proof fn lemma_filter_count<A>(s: Seq<A>, test: spec_fn(A) -> bool)
    ensures
        s.filter(test).len() == 0 <==> forall|a: int| 0 <= a < s.len() ==> !test(#[trigger] s[a]),
        s.filter(test).len() <= 1 <==> forall|a: int, b: int|
            0 <= a < b < s.len() ==> !(test(#[trigger] s[a]) && test(#[trigger] s[b])),
        s.filter(test).len() > 0 ==> s.contains(s.filter(test)[0]) && test(s.filter(test)[0]),
    decreases s.len(),
{
    reveal(Seq::filter);
    if s.len() > 0 {
        let shorter = s.drop_last();
        lemma_filter_count(shorter, test);
        assert(forall|a: int| 0 <= a < shorter.len() ==> shorter[a] == s[a]);
        if shorter.filter(test).len() > 0 {
            let x = shorter.filter(test)[0];
            assert(s.filter(test)[0] == x);
            let a = choose|a: int| 0 <= a < shorter.len() && shorter[a] == x;
            assert(s[a] == x);
            assert(test(s[a]));
            if test(s.last()) {
                assert(test(s[a]) && test(s[s.len() - 1]));
            }
        } else if test(s.last()) {
            assert(s[s.len() - 1] == s.last());
        }
        if s.filter(test).len() == 0 {
            assert forall|a: int| 0 <= a < s.len() implies !test(#[trigger] s[a]) by {
                if a < s.len() - 1 {
                    assert(!test(shorter[a]));
                }
            }
        }
        if s.filter(test).len() <= 1 {
            assert forall|a: int, b: int| 0 <= a < b < s.len() implies !(test(#[trigger] s[a])
                && test(#[trigger] s[b])) by {
                if b < s.len() - 1 {
                    assert(!(test(shorter[a]) && test(shorter[b])));
                } else if test(s[b]) {
                    assert(shorter.filter(test).len() == 0);
                    assert(!test(shorter[a]));
                }
            }
        }
        if s.filter(test).len() > 1 {
            if shorter.filter(test).len() > 1 {
                let (a, b) = choose|a: int, b: int|
                    0 <= a < b < shorter.len() && test(#[trigger] shorter[a]) && test(
                        #[trigger] shorter[b],
                    );
                assert(test(s[a]) && test(s[b]));
            }
        }
    }
}

/// The owner among fields to one target. A single field is the owner. Of several there is one
/// exactly if at most one is no belongs_to, and one belongs_to stands alone, or alone bears a mark;
/// and that one it is.
pub proof fn law_owner_of_group(
    entity: IdentifierView,
    target: Seq<char>,
    members: Seq<int>,
    fields: Seq<AnalyzedFieldView>,
)
    requires
        forall|a: int| 0 <= a < members.len() ==> 0 <= (#[trigger] members[a]) < fields.len(),
    ensures
        ({
            let outcome = group_owner(entity, target, members, fields);
            let few_others = forall|a: int, b: int|
                0 <= a < b < members.len() ==> fields[#[trigger] members[a]].ty is BelongsTo
                    || fields[#[trigger] members[b]].ty is BelongsTo;
            let one_belongs_to = {
                &&& exists|a: int|
                    0 <= a < members.len() && fields[#[trigger] members[a]].ty is BelongsTo
                &&& forall|a: int, b: int|
                    0 <= a < b < members.len() ==> !(fields[#[trigger] members[a]].ty is BelongsTo
                        && fields[#[trigger] members[b]].ty is BelongsTo)
            };
            let one_marked = {
                &&& exists|a: int|
                    0 <= a < members.len() && fields[#[trigger] members[a]].ty is BelongsTo
                        && fields[members[a]].attrs.related
                &&& forall|a: int, b: int|
                    0 <= a < b < members.len() ==> !(fields[#[trigger] members[a]].ty is BelongsTo
                        && fields[members[a]].attrs.related && fields[#[trigger] members[b]].ty
                        is BelongsTo && fields[members[b]].attrs.related)
            };
            &&& outcome is Ok <==> members.len() == 1 || few_others && (one_belongs_to
                || one_marked)
            &&& outcome matches Ok(owner) ==> members.contains(owner) && (members.len() == 1
                || fields[owner].ty is BelongsTo && (one_belongs_to || fields[owner].attrs.related))
        }),
{
    let others = members.filter(other_kind_test(fields));
    let ones = members.filter(belongs_to_test(fields));
    let marked = ones.filter(marked_test(fields));
    let both = |i: int| belongs_to_test(fields)(i) && marked_test(fields)(i);
    lemma_filter_count(members, other_kind_test(fields));
    lemma_filter_count(members, belongs_to_test(fields));
    lemma_filter_count(members, both);
    lemma_filter_twice(members, belongs_to_test(fields), marked_test(fields), both);
    assert(marked == members.filter(both));
    if others.len() <= 1 {
        assert forall|a: int, b: int| 0 <= a < b < members.len() implies fields[
            #[trigger] members[a]
        ].ty is BelongsTo || fields[#[trigger] members[b]].ty is BelongsTo by {
            assert(!(other_kind_test(fields)(members[a]) && other_kind_test(fields)(members[b])));
        }
    }
    if ones.len() <= 1 {
        assert forall|a: int, b: int| 0 <= a < b < members.len() implies !(fields[
            #[trigger] members[a]
        ].ty is BelongsTo && fields[#[trigger] members[b]].ty is BelongsTo) by {
            assert(!(belongs_to_test(fields)(members[a]) && belongs_to_test(fields)(members[b])));
        }
    }
    if marked.len() <= 1 {
        assert forall|a: int, b: int| 0 <= a < b < members.len() implies !(fields[
            #[trigger] members[a]
        ].ty is BelongsTo && fields[members[a]].attrs.related && fields[#[trigger] members[b]].ty
            is BelongsTo && fields[members[b]].attrs.related) by {
            assert(!(both(members[a]) && both(members[b])));
        }
    }
    if ones.len() > 0 {
        let a = choose|a: int| 0 <= a < members.len() && members[a] == ones[0];
        assert(fields[members[a]].ty is BelongsTo);
    }
    if marked.len() > 0 {
        let a = choose|a: int| 0 <= a < members.len() && members[a] == marked[0];
        assert(fields[members[a]].ty is BelongsTo && fields[members[a]].attrs.related);
    }
    if ones.len() == 0 {
        assert forall|a: int| 0 <= a < members.len() implies !(fields[#[trigger] members[a]].ty
            is BelongsTo) by {
            assert(!belongs_to_test(fields)(members[a]));
        }
    }
    if marked.len() == 0 {
        assert forall|a: int| 0 <= a < members.len() implies !(fields[#[trigger] members[a]].ty
            is BelongsTo && fields[members[a]].attrs.related) by {
            assert(!both(members[a]));
        }
    }
}

/// Passing two tests one after the other is passing both.
proof fn lemma_filter_twice(
    s: Seq<int>,
    test: spec_fn(int) -> bool,
    other: spec_fn(int) -> bool,
    both: spec_fn(int) -> bool,
)
    requires
        forall|i: int| #[trigger] both(i) == (test(i) && other(i)),
    ensures
        s.filter(test).filter(other) == s.filter(both),
    decreases s.len(),
{
    reveal(Seq::filter);
    if s.len() > 0 {
        lemma_filter_twice(s.drop_last(), test, other, both);
        if test(s.last()) {
            assert(s.filter(test).drop_last() =~= s.drop_last().filter(test));
        }
        assert(both(s.last()) == (test(s.last()) && other(s.last())));
    }
}

/// What is said of a group that has no owner. Of several fields that are no belongs_to only that is
/// said, at the entity; else a mark is asked for there; or each mark but the first is reported at
/// its field.
pub proof fn law_report_of_group(
    entity: IdentifierView,
    target: Seq<char>,
    members: Seq<int>,
    fields: Seq<AnalyzedFieldView>,
)
    requires
        forall|a: int| 0 <= a < members.len() ==> 0 <= (#[trigger] members[a]) < fields.len(),
        members.len() != 1,
    ensures
        ({
            let outcome = group_owner(entity, target, members, fields);
            let others = members.filter(|i: int| !(fields[i].ty is BelongsTo));
            let ones = members.filter(|i: int| fields[i].ty is BelongsTo);
            let marks = members.filter(
                |i: int| fields[i].ty is BelongsTo && fields[i].attrs.related,
            );
            let list = |places: Seq<int>|
                joined(places.map_values(|i: int| "'"@ + fields[i].name.text + "'"@), ", "@);
            &&& others.len() >= 2 ==> outcome == Err::<int, Seq<Message>>(
                seq![
                    (
                        entity.span,
                        "entity '"@ + entity.text + "' has "@ + decimal(others.len())
                            + " has_many fields referencing '"@ + target + "' ("@ + list(others)
                            + "); this is not supported yet — SeaORM cannot distinguish them without an explicit foreign key"@,
                    ),
                ],
            )
            &&& others.len() < 2 && ones.len() != 1 && marks.len() == 0 ==> outcome == Err::<
                int,
                Seq<Message>,
            >(
                seq![
                    (
                        entity.span,
                        "entity '"@ + entity.text + "' has "@ + decimal(ones.len())
                            + " fields referencing '"@ + target + "' ("@ + list(ones)
                            + "); add #[related] to exactly one of them to choose which one find_related uses"@,
                    ),
                ],
            )
            &&& others.len() < 2 && marks.len() >= 2 ==> outcome == Err::<int, Seq<Message>>(
                Seq::new(
                    (marks.len() - 1) as nat,
                    |k: int|
                        (
                            fields[marks[k + 1]].name.span,
                            "only one field per target may be marked #[related]; '"@ + target
                                + "' is already claimed by '"@ + fields[marks[0]].name.text + "'"@,
                        ),
                ),
            )
        }),
{
    let outcome = group_owner(entity, target, members, fields);
    let is_other = |i: int| !(fields[i].ty is BelongsTo);
    let is_one = |i: int| fields[i].ty is BelongsTo;
    let is_mark = |i: int| fields[i].ty is BelongsTo && fields[i].attrs.related;
    let both = |i: int| belongs_to_test(fields)(i) && marked_test(fields)(i);
    lemma_filter_same(members, other_kind_test(fields), is_other);
    lemma_filter_same(members, belongs_to_test(fields), is_one);
    lemma_filter_same(members, both, is_mark);
    lemma_filter_twice(members, belongs_to_test(fields), marked_test(fields), both);
    let others = members.filter(is_other);
    let ones = members.filter(is_one);
    let marks = members.filter(is_mark);
    assert(others.map_values(|i: int| quoted(fields[i].name.text)) =~= others.map_values(
        |i: int| "'"@ + fields[i].name.text + "'"@,
    ));
    assert(ones.map_values(|i: int| quoted(fields[i].name.text)) =~= ones.map_values(
        |i: int| "'"@ + fields[i].name.text + "'"@,
    ));
    if others.len() < 2 && marks.len() >= 2 {
        lemma_filter_twice(members, is_one, |i: int| fields[i].attrs.related, is_mark);
        ones.lemma_filter_len(|i: int| fields[i].attrs.related);
        let report = Seq::new(
            (marks.len() - 1) as nat,
            |k: int|
                (
                    fields[marks[k + 1]].name.span,
                    "only one field per target may be marked #[related]; '"@ + target
                        + "' is already claimed by '"@ + fields[marks[0]].name.text + "'"@,
                ),
        );
        assert(outcome->Err_0 =~= report) by {
            assert forall|k: int| 0 <= k < report.len() implies (#[trigger] report[k])
                == outcome->Err_0[k] by {
                assert(marks.drop_first()[k] == marks[k + 1]);
            }
        }
    }
}

/// Tests that agree on the elements let the same ones pass.
proof fn lemma_filter_same(s: Seq<int>, test: spec_fn(int) -> bool, other: spec_fn(int) -> bool)
    requires
        forall|a: int| 0 <= a < s.len() ==> test(#[trigger] s[a]) == other(s[a]),
    ensures
        s.filter(test) == s.filter(other),
    decreases s.len(),
{
    reveal(Seq::filter);
    if s.len() > 0 {
        let shorter = s.drop_last();
        assert forall|a: int| 0 <= a < shorter.len() implies test(#[trigger] shorter[a]) == other(
            shorter[a],
        ) by {
            assert(shorter[a] == s[a]);
        }
        lemma_filter_same(shorter, test, other);
        assert(s[s.len() - 1] == s.last());
    }
}

/// Of the has_many fields to one target at most one is let pass; of more than one all are named, at
/// the entity.
pub proof fn law_several_has_many_are_named(
    entity: IdentifierView,
    target: Seq<char>,
    has_many: Seq<int>,
    fields: Seq<AnalyzedFieldView>,
)
    ensures
        has_many.len() <= 1 ==> has_many_problem(entity, target, has_many, fields) is None,
        has_many.len() > 1 ==> has_many_problem(entity, target, has_many, fields) == Some(
            (
                entity.span,
                "entity '"@ + entity.text + "' has "@ + decimal(has_many.len())
                    + " has_many fields referencing '"@ + target + "' ("@ + joined(
                    has_many.map_values(|i: int| "'"@ + fields[i].name.text + "'"@),
                    ", "@,
                )
                    + "); this is not supported yet — SeaORM cannot distinguish them without an explicit foreign key"@,
            ),
        ),
{
    assert(has_many.map_values(|i: int| quoted(fields[i].name.text)) =~= has_many.map_values(
        |i: int| "'"@ + fields[i].name.text + "'"@,
    ));
}

/// Among the belongs_to fields to one target a single one owns `Related`, marked or not; of any
/// other number the marked one does, if there is one mark. Without a mark all are named, at the
/// entity; and each mark but the first is reported at its field.
pub proof fn law_marks_decide(
    entity: IdentifierView,
    target: Seq<char>,
    belongs_to: Seq<int>,
    fields: Seq<AnalyzedFieldView>,
)
    requires
        forall|a: int| 0 <= a < belongs_to.len() ==> 0 <= (#[trigger] belongs_to[a]) < fields.len(),
    ensures
        ({
            let outcome = belongs_to_owner(entity, target, belongs_to, fields);
            let marks = belongs_to.filter(|i: int| fields[i].attrs.related);
            &&& outcome is Ok <==> belongs_to.len() == 1 || marks.len() == 1
            &&& belongs_to.len() == 1 ==> outcome == Ok::<int, Seq<Message>>(belongs_to[0])
            &&& outcome matches Ok(owner) ==> belongs_to.contains(owner) && (belongs_to.len() == 1
                || fields[owner].attrs.related)
            &&& belongs_to.len() != 1 && marks.len() == 0 ==> outcome == Err::<int, Seq<Message>>(
                seq![
                    (
                        entity.span,
                        "entity '"@ + entity.text + "' has "@ + decimal(belongs_to.len())
                            + " fields referencing '"@ + target + "' ("@ + joined(
                            belongs_to.map_values(|i: int| "'"@ + fields[i].name.text + "'"@),
                            ", "@,
                        )
                            + "); add #[related] to exactly one of them to choose which one find_related uses"@,
                    ),
                ],
            )
            &&& marks.len() >= 2 ==> outcome == Err::<int, Seq<Message>>(
                Seq::new(
                    (marks.len() - 1) as nat,
                    |k: int|
                        (
                            fields[marks[k + 1]].name.span,
                            "only one field per target may be marked #[related]; '"@ + target
                                + "' is already claimed by '"@ + fields[marks[0]].name.text + "'"@,
                        ),
                ),
            )
        }),
{
    let outcome = belongs_to_owner(entity, target, belongs_to, fields);
    let is_mark = |i: int| fields[i].attrs.related;
    let marks = belongs_to.filter(is_mark);
    lemma_filter_same(belongs_to, marked_test(fields), is_mark);
    lemma_filter_count(belongs_to, is_mark);
    belongs_to.lemma_filter_len(is_mark);
    assert(belongs_to.map_values(|i: int| quoted(fields[i].name.text)) =~= belongs_to.map_values(
        |i: int| "'"@ + fields[i].name.text + "'"@,
    ));
    if belongs_to.len() == 1 {
        assert(belongs_to.contains(belongs_to[0]));
    }
    if marks.len() >= 2 {
        let report = Seq::new(
            (marks.len() - 1) as nat,
            |k: int|
                (
                    fields[marks[k + 1]].name.span,
                    "only one field per target may be marked #[related]; '"@ + target
                        + "' is already claimed by '"@ + fields[marks[0]].name.text + "'"@,
                ),
        );
        assert forall|k: int| 0 <= k < report.len() implies (#[trigger] report[k])
            == outcome->Err_0[k] by {
            assert(marks.drop_first()[k] == marks[k + 1]);
        }
        assert(outcome->Err_0 =~= report);
    }
}

// ---- Relationship rules ----

/// The relationship fields of an entity are accepted exactly if only belongs_to fields are marked,
/// no two has_many fields have one target, and of several belongs_to fields to one target exactly
/// one is marked.
pub proof fn law_relations_are_accepted_exactly(
    entity: IdentifierView,
    fields: Seq<AnalyzedFieldView>,
)
    ensures
        relation_problems(entity, fields).len() == 0 <==> {
            &&& forall|i: int|
                0 <= i < fields.len() && (#[trigger] fields[i]).attrs.related ==> fields[i].ty
                    is BelongsTo
            &&& forall|i: int, j: int|
                0 <= i < j < fields.len() && (#[trigger] fields[i]).ty is HasMany && (
                #[trigger] fields[j]).ty is HasMany ==> fields[i].ty->HasMany_target.text
                    != fields[j].ty->HasMany_target.text
            &&& forall|i: int, j: int|
                0 <= i < j < fields.len() && (#[trigger] fields[i]).ty is BelongsTo && (
                #[trigger] fields[j]).ty is BelongsTo && fields[i].ty->BelongsTo_target.text
                    == fields[j].ty->BelongsTo_target.text ==> {
                    &&& !(fields[i].attrs.related && fields[j].attrs.related)
                    &&& exists|m: int|
                        0 <= m < fields.len() && (#[trigger] fields[m]).ty is BelongsTo
                            && fields[m].attrs.related && fields[m].ty->BelongsTo_target.text
                            == fields[i].ty->BelongsTo_target.text
                }
        },
{
    let check = mark_check(fields);
    lemma_first_some(fields.len(), check);
    lemma_no_ownership_problem(entity, fields);
    if relation_problems(entity, fields).len() == 0 {
        assert forall|i: int| 0 <= i < fields.len() && (#[trigger] fields[i]).attrs.related implies fields[i].ty
            is BelongsTo by {
            assert(check(i) is None);
        }
        assert forall|i: int, j: int|
            0 <= i < j < fields.len() && (#[trigger] fields[i]).ty is HasMany && (
            #[trigger] fields[j]).ty is HasMany implies fields[i].ty->HasMany_target.text
            != fields[j].ty->HasMany_target.text by {
            let target = fields[i].ty->HasMany_target.text;
            assert(settled(fields, target));
            assert(points_at(fields[i], target));
            if fields[j].ty->HasMany_target.text == target {
                assert(points_at(fields[j], target));
            }
        }
        assert forall|i: int, j: int|
            0 <= i < j < fields.len() && (#[trigger] fields[i]).ty is BelongsTo && (
            #[trigger] fields[j]).ty is BelongsTo && fields[i].ty->BelongsTo_target.text
                == fields[j].ty->BelongsTo_target.text implies {
            &&& !(fields[i].attrs.related && fields[j].attrs.related)
            &&& exists|m: int|
                0 <= m < fields.len() && (#[trigger] fields[m]).ty is BelongsTo
                    && fields[m].attrs.related && fields[m].ty->BelongsTo_target.text
                    == fields[i].ty->BelongsTo_target.text
        } by {
            let target = fields[i].ty->BelongsTo_target.text;
            assert(settled(fields, target));
            assert(points_at(fields[i], target) && points_at(fields[j], target));
        }
    }
    if {
        &&& forall|i: int|
            0 <= i < fields.len() && (#[trigger] fields[i]).attrs.related ==> fields[i].ty
                is BelongsTo
        &&& forall|i: int, j: int|
            0 <= i < j < fields.len() && (#[trigger] fields[i]).ty is HasMany && (
            #[trigger] fields[j]).ty is HasMany ==> fields[i].ty->HasMany_target.text
                != fields[j].ty->HasMany_target.text
        &&& forall|i: int, j: int|
            0 <= i < j < fields.len() && (#[trigger] fields[i]).ty is BelongsTo && (
            #[trigger] fields[j]).ty is BelongsTo && fields[i].ty->BelongsTo_target.text
                == fields[j].ty->BelongsTo_target.text ==> {
                &&& !(fields[i].attrs.related && fields[j].attrs.related)
                &&& exists|m: int|
                    0 <= m < fields.len() && (#[trigger] fields[m]).ty is BelongsTo
                        && fields[m].attrs.related && fields[m].ty->BelongsTo_target.text
                        == fields[i].ty->BelongsTo_target.text
            }
    } {
        assert forall|i: int| 0 <= i < fields.len() implies #[trigger] check(i) is None by {
            assert(fields[i].attrs.related ==> fields[i].ty is BelongsTo);
        }
        assert forall|i: int| 0 <= i < fields.len() && target_of((#[trigger] fields[i]).ty) is Some implies settled(
            fields,
            (target_of(fields[i].ty)->Some_0).text,
        ) by {
            let target = (target_of(fields[i].ty)->Some_0).text;
            assert forall|a: int, b: int|
                0 <= a < b < fields.len() && points_at(#[trigger] fields[a], target) && points_at(
                    #[trigger] fields[b],
                    target,
                ) && fields[a].ty is BelongsTo && fields[b].ty is BelongsTo implies exists|m: int|
                0 <= m < fields.len() && points_at(#[trigger] fields[m], target) && fields[m].ty
                    is BelongsTo && fields[m].attrs.related by {
                let m = choose|m: int|
                    0 <= m < fields.len() && (#[trigger] fields[m]).ty is BelongsTo
                        && fields[m].attrs.related && fields[m].ty->BelongsTo_target.text
                        == fields[a].ty->BelongsTo_target.text;
                assert(points_at(fields[m], target));
            }
            assert forall|a: int, b: int|
                0 <= a < fields.len() && 0 <= b < fields.len() && points_at(
                    #[trigger] fields[a],
                    target,
                ) && points_at(#[trigger] fields[b], target) && fields[a].ty is HasMany
                    && fields[b].ty is HasMany implies a == b by {
                if a < b {
                    assert(fields[a].ty->HasMany_target.text != fields[b].ty->HasMany_target.text);
                }
                if b < a {
                    assert(fields[b].ty->HasMany_target.text != fields[a].ty->HasMany_target.text);
                }
            }
            assert forall|a: int, b: int|
                0 <= a < fields.len() && 0 <= b < fields.len() && points_at(
                    #[trigger] fields[a],
                    target,
                ) && points_at(#[trigger] fields[b], target) && fields[a].ty is BelongsTo
                    && fields[b].ty is BelongsTo && fields[a].attrs.related
                    && fields[b].attrs.related implies a == b by {
                if a < b {
                    assert(fields[a].ty->BelongsTo_target.text
                        == fields[b].ty->BelongsTo_target.text);
                }
                if b < a {
                    assert(fields[b].ty->BelongsTo_target.text
                        == fields[a].ty->BelongsTo_target.text);
                }
            }
        }
    }
}

/// `Related` is granted to each field that is the only one to its target, and to each belongs_to
/// that is marked or the only one to its target; unless there are two has_many fields or two
/// marked belongs_to fields to that target. Nothing else changes, and nothing is taken away.
pub proof fn law_related_is_granted(
    entity: IdentifierView,
    fields: Seq<AnalyzedFieldView>,
    i: int,
)
    requires
        0 <= i < fields.len(),
    ensures
        ({
            let granted = with_owners(entity, fields);
            let target = match fields[i].ty {
                FieldTypeView::Scalar { .. } => seq![],
                FieldTypeView::HasMany { target } => target.text,
                FieldTypeView::BelongsTo { target, .. } => target.text,
            };
            let clear = {
                &&& forall|a: int, b: int|
                    0 <= a < b < fields.len() && (#[trigger] fields[a]).ty is HasMany && (
                    #[trigger] fields[b]).ty is HasMany ==> !(relates_to(fields[a], target)
                        && relates_to(fields[b], target))
                &&& forall|a: int, b: int|
                    0 <= a < b < fields.len() && (#[trigger] fields[a]).ty is BelongsTo && (
                    #[trigger] fields[b]).ty is BelongsTo && fields[a].attrs.related
                        && fields[b].attrs.related ==> !(relates_to(fields[a], target)
                        && relates_to(fields[b], target))
            };
            &&& granted.len() == fields.len()
            &&& granted[i].attrs == fields[i].attrs
            &&& granted[i].name == fields[i].name
            &&& granted[i].ty == fields[i].ty
            &&& granted[i].span == fields[i].span
            &&& granted[i].implements_related <==> {
                ||| fields[i].implements_related
                ||| clear && !(fields[i].ty is Scalar) && forall|j: int|
                    0 <= j < fields.len() && j != i ==> !relates_to(#[trigger] fields[j], target)
                ||| clear && fields[i].ty is BelongsTo && fields[i].attrs.related
                ||| clear && fields[i].ty is BelongsTo && forall|j: int|
                    0 <= j < fields.len() && j != i && (#[trigger] fields[j]).ty is BelongsTo
                        ==> !relates_to(fields[j], target)
            }
        }),
{
    assert forall|j: int, name: Seq<char>| 0 <= j < fields.len() implies #[trigger] relates_to(
        fields[j],
        name,
    ) == points_at(fields[j], name) by {}
    if let Some(target) = target_of(fields[i].ty) {
        assert(points_at(fields[i], target.text));
        lemma_owner_iff_settled(entity, fields, target.text, i);
        lemma_owner_is_nominated(entity, fields, target.text);
        if nominated(fields, i) && settled(fields, target.text) {
            lemma_nominated_is_owner(entity, fields, target.text, i);
        }
        assert forall|j: int| 0 <= j < fields.len() implies same_target(
            fields[i],
            #[trigger] fields[j],
        ) == relates_to(fields[j], target.text) by {}
    }
}

/// A mark on a field that is no belongs_to is reported at the field. It is the first such field
/// that is, and nothing else.
pub proof fn law_mark_of_wrong_kind_is_reported(
    entity: IdentifierView,
    fields: Seq<AnalyzedFieldView>,
    i: int,
)
    requires
        0 <= i < fields.len(),
        fields[i].attrs.related,
        !(fields[i].ty is BelongsTo),
        forall|j: int|
            0 <= j < i && (#[trigger] fields[j]).attrs.related ==> fields[j].ty is BelongsTo,
    ensures
        ({
            let message = (
                fields[i].name.span,
                if fields[i].ty is HasMany {
                    "#[related] cannot be used on the has_many field '"@ + fields[i].name.text
                        + "'; mark the belongs_to field that owns the foreign key instead"@
                } else {
                    "#[related] can only be used on a relationship field, but '"@
                        + fields[i].name.text + "' is a scalar"@
                },
            );
            &&& first_some(fields.len(), mark_check(fields)) == Some(message)
            &&& relation_problems(entity, fields) == seq![message]
        }),
{
    let check = mark_check(fields);
    lemma_first_some(fields.len(), check);
    assert forall|j: int| 0 <= j < i implies #[trigger] check(j) is None by {
        assert(fields[j].attrs.related ==> fields[j].ty is BelongsTo);
    }
    assert(check(i) is Some);
    assert(first_some(fields.len(), check) == check(i));
}

} // verus!
