//! Deciding which field owns `Related<Target>` for each target entity.
//!
//! `Related` can be implemented once per pair of entities. Of several fields that point at one
//! entity, one has to own it; the others are reached in another way.

use vstd::prelude::*;

use crate::analyzed::{field_views, AnalyzedField, AnalyzedFieldView};
use crate::diagnostics::{combine_errors, error_messages, new_error, Message};
use crate::identifier::Identifier;
use crate::messages;
use crate::ownership::{
    lemma_group_members, lemma_groups_push, lemma_owner_is_member, lemma_owner_same, lemma_owners,
    same_but_owners,
};
use crate::rules::{
    belongs_to_owner, belongs_to_test, group_owner, group_problems, groups, has_many_problem,
    mark_check, marked_test, name_list, other_kind_test, relation_problems, target_of, with_owners,
};
use crate::sequences::{first_some, gathered, lemma_first_some_at};
use crate::text::{joined, quoted};
use crate::types::FieldType;

verus! {

/// Indices as mathematical integers.
pub open spec fn places(indices: Seq<usize>) -> Seq<int> {
    indices.map_values(|i: usize| i as int)
}

/// The entity a relationship field points at, or `None` for scalars.
pub fn relation_target(ty: &FieldType) -> (target: Option<&Identifier>)
    ensures
        match target {
            Some(ident) => target_of(ty@) == Some(ident@),
            None => target_of(ty@) is None,
        },
        match *ty {
            FieldType::BelongsTo { target: named, .. } => target == Some(&named),
            FieldType::HasMany { target: named } => target == Some(&named),
            FieldType::Scalar { .. } => target is None,
        },
{
    match ty {
        FieldType::BelongsTo { target, .. } => Some(target),
        FieldType::HasMany { target } => Some(target),
        FieldType::Scalar { .. } => None,
    }
}

/// Render field names for an error message: `'from', 'to'`.
pub fn field_list(indices: &[usize], fields: &[AnalyzedField]) -> (text: String)
    requires
        forall|k: int| 0 <= k < indices@.len() ==> (#[trigger] indices@[k]) < fields@.len(),
    ensures
        text@ == name_list(places(indices@), field_views(fields@)),
        text@ == joined(
            Seq::new(
                indices@.len(),
                |k: int| "'"@ + fields@[indices@[k] as int].name.text@ + "'"@,
            ),
            ", "@,
        ),
{
    let ghost views = field_views(fields@);
    let ghost parts = places(indices@).map_values(|i: int| quoted(views[i].name.text));
    let mut text: String = String::new();
    let mut k: usize = 0;
    assert(parts.take(0) =~= seq![]);
    while k < indices.len()
        invariant
            k <= indices@.len(),
            forall|k: int| 0 <= k < indices@.len() ==> (#[trigger] indices@[k]) < fields@.len(),
            views == field_views(fields@),
            parts == places(indices@).map_values(|i: int| quoted(views[i].name.text)),
            text@ == joined(parts.take(k as int), ", "@),
        decreases indices@.len() - k,
    {
        if k > 0 {
            text.append(", ");
        }
        let name: String = messages::between("'", fields[indices[k]].name.text.as_str(), "'");
        text.append(name.as_str());
        proof {
            assert(parts[k as int] == name@);
            assert(parts.take(k + 1).drop_last() =~= parts.take(k as int));
            assert(parts.take(k + 1).last() == name@);
            if k == 0 {
                assert(text@ =~= name@);
            }
        }
        k = k + 1;
    }
    assert(parts.take(k as int) =~= parts);
    assert(parts =~= Seq::new(
        indices@.len(),
        |k: int| "'"@ + fields@[indices@[k] as int].name.text@ + "'"@,
    ));
    text
}

/// Keeping the elements that pass a test, one more element at a time.
proof fn lemma_filter_step<A>(s: Seq<A>, k: int, test: spec_fn(A) -> bool)
    requires
        0 <= k < s.len(),
    ensures
        s.take(k + 1).filter(test) == if test(s[k]) {
            s.take(k).filter(test).push(s[k])
        } else {
            s.take(k).filter(test)
        },
{
    reveal(Seq::filter);
    assert(s.take(k + 1).drop_last() =~= s.take(k));
}

/// Rule 1 — `has_many`: at most one may reference a given target.
///
/// A has_many carries no join columns of its own, so two of them to one entity describe the same
/// join and nothing could tell them apart.
pub fn validate_has_many_group(
    entity: &Identifier,
    target: &str,
    has_many: &[usize],
    fields: &[AnalyzedField],
) -> (outcome: Result<(), syn::Error>)
    requires
        forall|k: int| 0 <= k < has_many@.len() ==> (#[trigger] has_many@[k]) < fields@.len(),
    ensures
        match (
            outcome,
            has_many_problem(entity@, target@, places(has_many@), field_views(fields@)),
        ) {
            (Ok(_), problem) => problem is None,
            (Err(error), problem) => problem matches Some(message) && error_messages(error)
                == seq![message],
        },
{
    if has_many.len() < 2 {
        return Ok(());
    }
    let list: String = field_list(has_many, fields);
    Err(
        new_error(
            entity.span,
            messages::several_has_many(
                entity.text.as_str(),
                has_many.len(),
                target,
                list.as_str(),
            ),
        ),
    )
}

/// Rule 2 — `belongs_to`: exactly one of them owns `Related` for this target.
///
/// A single candidate wins outright, since there is nothing to choose between. Otherwise exactly
/// one must be marked `#[related]`, and every surplus mark is reported.
pub fn validate_belongs_to_group(
    entity: &Identifier,
    target: &str,
    belongs_to: &[usize],
    fields: &[AnalyzedField],
) -> (outcome: Result<usize, syn::Error>)
    requires
        forall|k: int| 0 <= k < belongs_to@.len() ==> (#[trigger] belongs_to@[k]) < fields@.len(),
    ensures
        match (
            outcome,
            belongs_to_owner(entity@, target@, places(belongs_to@), field_views(fields@)),
        ) {
            (Ok(winner), Ok(owner)) => winner == owner,
            (Err(error), Err(messages)) => error_messages(error) == messages,
            _ => false,
        },
{
    if belongs_to.len() == 1 {
        return Ok(belongs_to[0]);
    }
    let ghost views = field_views(fields@);
    let ghost all = places(belongs_to@);
    let mut marked: Vec<usize> = Vec::new();
    let mut k: usize = 0;
    assert(places(marked@) =~= all.take(0).filter(marked_test(views))) by {
        reveal(Seq::filter);
    }
    while k < belongs_to.len()
        invariant
            k <= belongs_to@.len(),
            forall|k: int|
                0 <= k < belongs_to@.len() ==> (#[trigger] belongs_to@[k]) < fields@.len(),
            views == field_views(fields@),
            all == places(belongs_to@),
            places(marked@) == all.take(k as int).filter(marked_test(views)),
            forall|m: int| 0 <= m < marked@.len() ==> (#[trigger] marked@[m]) < fields@.len(),
        decreases belongs_to@.len() - k,
    {
        let i: usize = belongs_to[k];
        proof {
            lemma_filter_step(all, k as int, marked_test(views));
            assert(all[k as int] == i);
        }
        if fields[i].attrs.related {
            let ghost before = places(marked@);
            marked.push(i);
            assert(places(marked@) =~= before.push(i as int));
        }
        k = k + 1;
    }
    assert(all.take(k as int) =~= all);
    let ghost claims = places(marked@);
    assert(claims.len() == marked@.len());
    if marked.len() == 1 {
        assert(claims[0] == marked@[0]);
        return Ok(marked[0]);
    }
    if marked.len() == 0 {
        let list: String = field_list(belongs_to, fields);
        return Err(
            new_error(
                entity.span,
                messages::unmarked(
                    entity.text.as_str(),
                    belongs_to.len(),
                    target,
                    list.as_str(),
                ),
            ),
        );
    }
    // Every surplus mark is reported, not just the first, so that one run shows all of them.
    let first: usize = marked[0];
    assert(claims[0] == first);
    let ghost report = claims.drop_first().map_values(
        |i: int|
            (views[i].name.span, messages::surplus_mark_text(target@, views[claims[0]].name.text)),
    );
    let second: usize = marked[1];
    let mut error: syn::Error = new_error(
        fields[second].name.span,
        messages::surplus_mark(target, fields[first].name.text.as_str()),
    );
    let mut m: usize = 2;
    assert(claims[1] == second);
    assert(error_messages(error) =~= report.take(1));
    while m < marked.len()
        invariant
            2 <= m <= marked@.len(),
            claims == places(marked@),
            views == field_views(fields@),
            first == claims[0],
            forall|m: int| 0 <= m < marked@.len() ==> (#[trigger] marked@[m]) < fields@.len(),
            report == claims.drop_first().map_values(
                |i: int|
                    (
                        views[i].name.span,
                        messages::surplus_mark_text(target@, views[claims[0]].name.text),
                    ),
            ),
            error_messages(error) == report.take(m - 1),
        decreases marked@.len() - m,
    {
        let i: usize = marked[m];
        assert(marked@[0] < fields@.len());
        let surplus: syn::Error = new_error(
            fields[i].name.span,
            messages::surplus_mark(target, fields[first].name.text.as_str()),
        );
        combine_errors(&mut error, surplus);
        assert(claims[m as int] == i);
        assert(report.take(m as int) =~= report.take(m - 1) + seq![report[m - 1]]);
        m = m + 1;
    }
    assert(report.take(m - 1) =~= report);
    Err(error)
}

/// Check one target group against both relationship rules and return the index of the field that
/// owns `Related` for it.
///
/// A single field to a target is unambiguous, whichever kind it is. In a larger group there may be
/// no two has_many fields ([`validate_has_many_group`]), and a belongs_to field is the owner
/// ([`validate_belongs_to_group`]).
pub fn resolve_related_owner(
    entity: &Identifier,
    target: &str,
    members: &[usize],
    fields: &[AnalyzedField],
) -> (outcome: Result<usize, syn::Error>)
    requires
        forall|k: int| 0 <= k < members@.len() ==> (#[trigger] members@[k]) < fields@.len(),
    ensures
        match (outcome, group_owner(entity@, target@, places(members@), field_views(fields@))) {
            (Ok(winner), Ok(owner)) => winner == owner,
            (Err(error), Err(messages)) => error_messages(error) == messages,
            _ => false,
        },
{
    if members.len() == 1 {
        return Ok(members[0]);
    }
    let ghost views = field_views(fields@);
    let ghost all = places(members@);
    let mut belongs_to: Vec<usize> = Vec::new();
    let mut has_many: Vec<usize> = Vec::new();
    let mut k: usize = 0;
    proof {
        reveal(Seq::filter);
        assert(places(belongs_to@) =~= all.take(0).filter(belongs_to_test(views)));
        assert(places(has_many@) =~= all.take(0).filter(other_kind_test(views)));
    }
    while k < members.len()
        invariant
            k <= members@.len(),
            forall|k: int| 0 <= k < members@.len() ==> (#[trigger] members@[k]) < fields@.len(),
            views == field_views(fields@),
            all == places(members@),
            places(belongs_to@) == all.take(k as int).filter(belongs_to_test(views)),
            places(has_many@) == all.take(k as int).filter(other_kind_test(views)),
            forall|m: int|
                0 <= m < belongs_to@.len() ==> (#[trigger] belongs_to@[m]) < fields@.len(),
            forall|m: int| 0 <= m < has_many@.len() ==> (#[trigger] has_many@[m]) < fields@.len(),
        decreases members@.len() - k,
    {
        let i: usize = members[k];
        proof {
            lemma_filter_step(all, k as int, belongs_to_test(views));
            lemma_filter_step(all, k as int, other_kind_test(views));
            assert(all[k as int] == i);
            assert(views[i as int] == fields@[i as int]@);
        }
        if matches!(fields[i].ty, FieldType::BelongsTo { .. }) {
            let ghost before = places(belongs_to@);
            belongs_to.push(i);
            assert(places(belongs_to@) =~= before.push(i as int));
        } else {
            let ghost before = places(has_many@);
            has_many.push(i);
            assert(places(has_many@) =~= before.push(i as int));
        }
        k = k + 1;
    }
    assert(all.take(k as int) =~= all);
    match validate_has_many_group(entity, target, has_many.as_slice(), fields) {
        Ok(()) => {},
        Err(error) => return Err(error),
    }
    validate_belongs_to_group(entity, target, belongs_to.as_slice(), fields)
}

/// Reject `#[related]` on fields that can never own a `Related` impl by it.
///
/// A has_many carries no join columns of its own: what it joins on is the reverse of the target's
/// own `Related`, so it could not be defined by it.
pub fn validate_related_attr_placement(fields: &[AnalyzedField]) -> (outcome: Result<
    (),
    syn::Error,
>)
    ensures
        match (outcome, first_some(fields@.len(), mark_check(field_views(fields@)))) {
            (Ok(_), problem) => problem is None,
            (Err(error), problem) => problem matches Some(message) && error_messages(error)
                == seq![message],
        },
        outcome is Ok <==> forall|i: int|
            0 <= i < fields@.len() && (#[trigger] fields@[i]).attrs.related ==> fields@[i].ty
                is BelongsTo,
{
    let ghost views = field_views(fields@);
    let mut i: usize = 0;
    while i < fields.len()
        invariant
            i <= fields@.len(),
            views == field_views(fields@),
            first_some(i as nat, mark_check(views)) is None,
            forall|j: int|
                0 <= j < i && (#[trigger] fields@[j]).attrs.related ==> fields@[j].ty is BelongsTo,
        decreases fields@.len() - i,
    {
        let field: &AnalyzedField = &fields[i];
        assert(views[i as int] == field@);
        if field.attrs.related {
            match &field.ty {
                FieldType::BelongsTo { .. } => {},
                FieldType::HasMany { .. } => {
                    let error: syn::Error = new_error(
                        field.name.span,
                        messages::marked_has_many(field.name.text.as_str()),
                    );
                    proof {
                        lemma_first_some_at(fields@.len(), mark_check(views), i as int);
                    }
                    return Err(error);
                },
                FieldType::Scalar { .. } => {
                    let error: syn::Error = new_error(
                        field.name.span,
                        messages::marked_scalar(field.name.text.as_str()),
                    );
                    proof {
                        lemma_first_some_at(fields@.len(), mark_check(views), i as int);
                    }
                    return Err(error);
                },
            }
        }
        i = i + 1;
    }
    Ok(())
}

/// What a list of groups stands for in contracts.
pub open spec fn group_views(groups: Seq<(String, Vec<usize>)>) -> Seq<(Seq<char>, Seq<int>)> {
    groups.map_values(|group: (String, Vec<usize>)| (group.0@, places(group.1@)))
}

/// Group an entity's relationship field indices by the entity they target.
///
/// Both relationship kinds share a group, because `Related<T>` collides on the target alone.
/// Scalars are skipped. For
///
/// ```ignore
/// Tx {
///     amount: i64,             // 0 — scalar, skipped
///     seller: Option<User>,    // 1 — belongs_to
///     from: Option<Account>,   // 2 — belongs_to
///     buyer: Option<User>,     // 3 — belongs_to
///     to: Option<Account>,     // 4 — belongs_to
///     watchers: Vec<User>,     // 5 — has_many, same group as 1 and 3
/// }
/// ```
///
/// the groups are `("User", [1, 3, 5])` and `("Account", [2, 4])`. Groups stand in the order of
/// their first fields, so that errors are reported in source order.
pub fn group_by_target(fields: &[AnalyzedField]) -> (found: Vec<(String, Vec<usize>)>)
    ensures
        group_views(found@) == groups(field_views(fields@)),
{
    let ghost views = field_views(fields@);
    let mut found: Vec<(String, Vec<usize>)> = Vec::new();
    let mut idx: usize = 0;
    assert(group_views(found@) =~= groups(views.take(0)));
    while idx < fields.len()
        invariant
            idx <= fields@.len(),
            views == field_views(fields@),
            group_views(found@) == groups(views.take(idx as int)),
        decreases fields@.len() - idx,
    {
        let ghost seen = views.take(idx as int);
        let ghost before = group_views(found@);
        proof {
            lemma_groups_push(seen, views[idx as int]);
            assert(views.take(idx + 1) =~= seen.push(views[idx as int]));
            assert(views[idx as int] == fields@[idx as int]@);
        }
        match relation_target(&fields[idx].ty) {
            None => {},
            Some(target) => {
                let mut k: usize = 0;
                while k < found.len() && found[k].0 != target.text
                    invariant
                        k <= found@.len(),
                        before == group_views(found@),
                        forall|m: int| 0 <= m < k ==> (#[trigger] before[m]).0 != target.text@,
                    decreases found@.len() - k,
                {
                    assert(before[k as int].0 == found@[k as int].0@);
                    k = k + 1;
                }
                if k < found.len() {
                    assert(before[k as int].0 == found@[k as int].0@);
                    assert(before[k as int].1 == places(found@[k as int].1@));
                    let ghost old_group = found@[k as int];
                    found[k].1.push(idx);
                    proof {
                        assert(places(found@[k as int].1@) =~= places(old_group.1@).push(
                            idx as int,
                        ));
                        assert(group_views(found@) =~= before.update(
                            k as int,
                            (before[k as int].0, before[k as int].1.push(idx as int)),
                        ));
                    }
                } else {
                    let mut only: Vec<usize> = Vec::new();
                    only.push(idx);
                    found.push((target.text.clone(), only));
                    proof {
                        assert(places(only@) =~= seq![idx as int]);
                        assert(group_views(found@) =~= before.push(
                            (target.text@, seq![idx as int]),
                        ));
                    }
                }
            },
        }
        idx = idx + 1;
    }
    assert(views.take(idx as int) =~= views);
    found
}

/// Decide which field owns `impl Related<Target>` for each target entity.
///
/// `Related<T>` is keyed on the pair of types, so it can only be implemented once per target. Two
/// fields to one entity therefore need one of them nominated.
pub fn validate_relation_rules(
    entity: &Identifier,
    fields: &mut Vec<AnalyzedField>,
) -> (outcome: Result<(), syn::Error>)
    ensures
        match outcome {
            Ok(_) => relation_problems(entity@, field_views(old(fields)@)).len() == 0,
            Err(error) => error_messages(error) == relation_problems(
                entity@,
                field_views(old(fields)@),
            ) && error_messages(error).len() > 0,
        },
        field_views(final(fields)@) == if first_some(
            old(fields)@.len(),
            mark_check(field_views(old(fields)@)),
        ) is Some {
            field_views(old(fields)@)
        } else {
            with_owners(entity@, field_views(old(fields)@))
        },
{
    match validate_related_attr_placement(fields.as_slice()) {
        Ok(()) => {},
        Err(error) => return Err(error),
    }
    let ghost start = field_views(fields@);
    let ghost all = groups(start);
    let found: Vec<(String, Vec<usize>)> = group_by_target(fields.as_slice());
    let mut error: Option<syn::Error> = None;
    let mut k: usize = 0;
    while k < found.len()
        invariant
            k <= found@.len(),
            start == field_views(old(fields)@),
            all == groups(start),
            group_views(found@) == all,
            same_but_owners(field_views(fields@), start),
            match error {
                Some(e) => error_messages(e) == gathered(k as nat, group_problems(entity@, start))
                    && error_messages(e).len() > 0,
                None => gathered(k as nat, group_problems(entity@, start)).len() == 0,
            },
            forall|i: int|
                0 <= i < start.len() ==> ((#[trigger] fields@[i]).implements_related <==> (
                start[i].implements_related || exists|m: int|
                    #![trigger all[m]]
                    0 <= m < k && group_owner(entity@, all[m].0, all[m].1, start) == Ok::<
                        int,
                        Seq<Message>,
                    >(i))),
        decreases found@.len() - k,
    {
        let ghost now = field_views(fields@);
        let ghost group = all[k as int];
        let members: &[usize] = found[k].1.as_slice();
        proof {
            assert(group_views(found@)[k as int] == group);
            assert(group.0 == found@[k as int].0@);
            assert(group.1 == places(members@));
            assert forall|m: int| 0 <= m < members@.len() implies (#[trigger] members@[m])
                < start.len() && 0 <= group.1[m] < start.len() by {
                assert(group.1[m] == members@[m]);
                assert(group.1.contains(group.1[m]));
                lemma_group_members(start, k as int, group.1[m]);
            }
            assert forall|m: int| 0 <= m < group.1.len() implies 0 <= (#[trigger] group.1[m])
                < now.len() by {
                assert(members@[m] < start.len());
            }
            lemma_owner_same(entity@, group.0, group.1, now, start);
            lemma_owner_is_member(entity@, group.0, group.1, start);
        }
        match resolve_related_owner(
            entity,
            found[k].0.as_str(),
            members,
            fields.as_slice(),
        ) {
            Ok(winner) => {
                assert(group.1.contains(winner as int));
                fields[winner].implements_related = true;
                assert(field_views(fields@) =~= now.update(
                    winner as int,
                    AnalyzedFieldView { implements_related: true, ..now[winner as int] },
                ));
                assert forall|i: int| 0 <= i < start.len() implies (#[trigger] field_views(
                    fields@,
                )[i]) == (AnalyzedFieldView {
                    implements_related: field_views(fields@)[i].implements_related,
                    ..start[i]
                }) by {
                    assert(now[i] == (AnalyzedFieldView {
                        implements_related: now[i].implements_related,
                        ..start[i]
                    }));
                }
                assert(gathered(
                    (k + 1) as nat,
                    group_problems(entity@, start),
                ) =~= gathered(k as nat, group_problems(entity@, start)));
            },
            Err(e) => {
                match error {
                    Some(ref mut first) => combine_errors(first, e),
                    None => {
                        error = Some(e);
                    },
                }
            },
        }
        k = k + 1;
    }
    proof {
        assert forall|i: int| 0 <= i < start.len() implies field_views(fields@)[i] == with_owners(
            entity@,
            start,
        )[i] by {
            lemma_owners(entity@, start, i);
            assert(fields@[i].implements_related == field_views(fields@)[i].implements_related);
        }
        assert(field_views(fields@) =~= with_owners(entity@, start));
    }
    match error {
        Some(e) => Err(e),
        None => Ok(()),
    }
}

} // verus!
