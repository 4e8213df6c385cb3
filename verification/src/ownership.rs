//! Facts on groups of fields and on their owners.

use vstd::prelude::*;

use crate::analyzed::AnalyzedFieldView;
use crate::diagnostics::Message;
use crate::identifier::IdentifierView;
use crate::messages;
use crate::rules::{
    belongs_to_test, group_of, group_owner, groups, leader_test, leaders, marked_test,
    member_test, members, other_kind_test, owns_related, points_at, target_of,
};
use crate::sequences::{
    lemma_positions, lemma_positions_congruent, lemma_positions_count, lemma_positions_filter,
    positions,
};
use crate::text::quoted;

verus! {

/// A further field joins the members of its target, and of no other.
pub(crate) proof fn lemma_members_push(
    fields: Seq<AnalyzedFieldView>,
    field: AnalyzedFieldView,
    target: Seq<char>,
)
    ensures
        members(fields.push(field), target) == if points_at(field, target) {
            members(fields, target).push(fields.len() as int)
        } else {
            members(fields, target)
        },
{
    let longer = fields.push(field);
    lemma_positions_congruent(
        fields.len(),
        member_test(longer, target),
        member_test(fields, target),
    );
    assert(longer[fields.len() as int] == field);
}

/// Where a field points at a target, there is a group of that target.
pub(crate) proof fn lemma_group_exists(fields: Seq<AnalyzedFieldView>, i: int) -> (k: int)
    requires
        0 <= i < fields.len(),
        target_of(fields[i].ty) is Some,
    ensures
        0 <= k < groups(fields).len(),
        groups(fields)[k] == group_of(fields, i),
    decreases i,
{
    let target = (target_of(fields[i].ty)->Some_0).text;
    lemma_positions(fields.len(), leader_test(fields));
    if leader_test(fields)(i) {
        let firsts = leaders(fields);
        assert(firsts.contains(i));
        let k = choose|k: int| 0 <= k < firsts.len() && firsts[k] == i;
        k
    } else {
        let j = choose|j: int| 0 <= j < i && points_at(#[trigger] fields[j], target);
        lemma_group_exists(fields, j)
    }
}

/// Each group has a leader, its first field; and no two groups have one target.
pub(crate) proof fn lemma_groups(fields: Seq<AnalyzedFieldView>)
    ensures
        forall|k: int|
            0 <= k < leaders(fields).len() ==> 0 <= (#[trigger] leaders(fields)[k]) < fields.len()
                && leader_test(fields)(leaders(fields)[k]),
        forall|a: int, b: int|
            0 <= a < b < groups(fields).len() ==> (#[trigger] groups(fields)[a]).0
                != (#[trigger] groups(fields)[b]).0,
{
    let firsts = leaders(fields);
    lemma_positions(fields.len(), leader_test(fields));
    assert forall|k: int| 0 <= k < firsts.len() implies 0 <= (#[trigger] firsts[k]) < fields.len()
        && leader_test(fields)(firsts[k]) by {
        assert(firsts.contains(firsts[k]));
    }
    assert forall|a: int, b: int| 0 <= a < b < groups(fields).len() implies (
    #[trigger] groups(fields)[a]).0 != (#[trigger] groups(fields)[b]).0 by {
        assert(firsts[a] < firsts[b]);
        assert(leader_test(fields)(firsts[b]));
        assert(leader_test(fields)(firsts[a]));
        assert(points_at(fields[firsts[a]], groups(fields)[a].0));
    }
}

/// A further field changes the groups in one place at most.
pub(crate) proof fn lemma_groups_push(fields: Seq<AnalyzedFieldView>, field: AnalyzedFieldView)
    ensures
        target_of(field.ty) is None ==> groups(fields.push(field)) == groups(fields),
        forall|k: int|
            #![trigger groups(fields)[k]]
            0 <= k < groups(fields).len() && points_at(field, groups(fields)[k].0) ==> groups(
                fields.push(field),
            ) == groups(fields).update(
                k,
                (groups(fields)[k].0, groups(fields)[k].1.push(fields.len() as int)),
            ),
        target_of(field.ty) matches Some(ident) && (forall|k: int|
            0 <= k < groups(fields).len() ==> (#[trigger] groups(fields)[k]).0 != ident.text)
            ==> groups(fields.push(field)) == groups(fields).push(
            ((target_of(field.ty)->Some_0).text, seq![fields.len() as int]),
        ),
{
    let n = fields.len();
    let longer = fields.push(field);
    let firsts = leaders(fields);
    let before = groups(fields);
    let after = groups(longer);
    assert(longer[n as int] == field);
    assert forall|i: int| 0 <= i < n implies #[trigger] leader_test(longer)(i) == leader_test(
        fields,
    )(i) by {
        assert(longer[i] == fields[i]);
        assert forall|j: int| 0 <= j < i implies #[trigger] fields[j] == longer[j] by {}
        if leader_test(longer)(i) {
            assert forall|j: int| 0 <= j < i implies !points_at(
                #[trigger] fields[j],
                (target_of(fields[i].ty)->Some_0).text,
            ) by {
                assert(longer[j] == fields[j]);
            }
        }
    }
    lemma_positions_congruent(n, leader_test(longer), leader_test(fields));
    lemma_groups(fields);
    assert forall|k: int| 0 <= k < before.len() implies #[trigger] after[k] == (
        before[k].0,
        if points_at(field, before[k].0) {
            before[k].1.push(n as int)
        } else {
            before[k].1
        },
    ) by {
        assert(longer[firsts[k]] == fields[firsts[k]]);
        lemma_members_push(fields, field, before[k].0);
    }
    if target_of(field.ty) is None {
        assert(after =~= before);
    } else {
        let target = (target_of(field.ty)->Some_0).text;
        assert forall|k: int|
            #![trigger before[k]]
            0 <= k < before.len() && points_at(field, before[k].0) implies after =~= before.update(
            k,
            (before[k].0, before[k].1.push(n as int)),
        ) by {
            assert(longer[firsts[k]] == fields[firsts[k]]);
            assert(points_at(longer[firsts[k]], target));
            assert(!leader_test(longer)(n as int));
        }
        if forall|k: int| 0 <= k < before.len() ==> (#[trigger] before[k]).0 != target {
            assert forall|j: int| 0 <= j < n implies !points_at(#[trigger] longer[j], target) by {
                assert(longer[j] == fields[j]);
                if points_at(fields[j], target) {
                    let k = lemma_group_exists(fields, j);
                    assert(before[k].0 == target);
                }
            }
            assert(leader_test(longer)(n as int));
            lemma_members_push(fields, field, target);
            lemma_positions(n, member_test(fields, target));
            assert(members(fields, target) =~= seq![]) by {
                let all = members(fields, target);
                if all.len() > 0 {
                    assert(all.contains(all[0]));
                    assert(longer[all[0]] == fields[all[0]]);
                }
            }
            assert(after =~= before.push((target, seq![n as int])));
        }
    }
}

/// Whether two lists of fields differ at most in who owns `Related`.
pub(crate) open spec fn same_but_owners(
    fields: Seq<AnalyzedFieldView>,
    other: Seq<AnalyzedFieldView>,
) -> bool {
    &&& fields.len() == other.len()
    &&& forall|i: int|
        0 <= i < fields.len() ==> (#[trigger] fields[i]) == (AnalyzedFieldView {
            implements_related: fields[i].implements_related,
            ..other[i]
        })
}

/// Who owns a group does not depend on what has been granted already.
pub(crate) proof fn lemma_owner_same(
    entity: IdentifierView,
    target: Seq<char>,
    members: Seq<int>,
    fields: Seq<AnalyzedFieldView>,
    other: Seq<AnalyzedFieldView>,
)
    requires
        same_but_owners(fields, other),
        forall|k: int| 0 <= k < members.len() ==> 0 <= (#[trigger] members[k]) < fields.len(),
    ensures
        group_owner(entity, target, members, fields) == group_owner(
            entity,
            target,
            members,
            other,
        ),
{
    assert(belongs_to_test(fields) =~= belongs_to_test(other));
    assert(other_kind_test(fields) =~= other_kind_test(other));
    assert(marked_test(fields) =~= marked_test(other));
    let has_many = members.filter(other_kind_test(fields));
    let belongs_to = members.filter(belongs_to_test(fields));
    let marked = belongs_to.filter(marked_test(fields));
    lemma_filter_within(members, other_kind_test(fields), fields.len());
    lemma_filter_within(members, belongs_to_test(fields), fields.len());
    lemma_filter_within(belongs_to, marked_test(fields), fields.len());
    assert(has_many.map_values(|i: int| quoted(fields[i].name.text)) =~= has_many.map_values(
        |i: int| quoted(other[i].name.text),
    ));
    assert(belongs_to.map_values(|i: int| quoted(fields[i].name.text)) =~= belongs_to.map_values(
        |i: int| quoted(other[i].name.text),
    ));
    if marked.len() >= 2 {
        assert(marked.drop_first().map_values(
            |i: int|
                (
                    fields[i].name.span,
                    messages::surplus_mark_text(target, fields[marked[0]].name.text),
                ),
        ) =~= marked.drop_first().map_values(
            |i: int|
                (
                    other[i].name.span,
                    messages::surplus_mark_text(target, other[marked[0]].name.text),
                ),
        ));
    }
}

/// What passes a test was there before, and stays within bounds.
pub(crate) proof fn lemma_filter_within(s: Seq<int>, test: spec_fn(int) -> bool, n: nat)
    ensures
        (forall|k: int| 0 <= k < s.len() ==> 0 <= (#[trigger] s[k]) < n) ==> forall|k: int|
            0 <= k < s.filter(test).len() ==> 0 <= (#[trigger] s.filter(test)[k]) < n,
        forall|k: int|
            0 <= k < s.filter(test).len() ==> s.contains(#[trigger] s.filter(test)[k]) && test(
                s.filter(test)[k],
            ),
    decreases s.len(),
{
    reveal(Seq::filter);
    if s.len() > 0 {
        let shorter = s.drop_last();
        lemma_filter_within(shorter, test, n);
        assert(forall|k: int| 0 <= k < shorter.len() ==> shorter[k] == s[k]);
        assert forall|k: int| 0 <= k < s.filter(test).len() implies s.contains(
            #[trigger] s.filter(test)[k],
        ) && test(s.filter(test)[k]) by {
            if k < shorter.filter(test).len() {
                assert(s.filter(test)[k] == shorter.filter(test)[k]);
                let x = shorter.filter(test)[k];
                assert(shorter.contains(x));
                let m = choose|m: int| 0 <= m < shorter.len() && shorter[m] == x;
                assert(s[m] == x);
            } else {
                assert(s[s.len() - 1] == s.filter(test)[k]);
            }
        }
        if forall|k: int| 0 <= k < s.len() ==> 0 <= (#[trigger] s[k]) < n {
            assert forall|k: int| 0 <= k < s.filter(test).len() implies 0 <= (
            #[trigger] s.filter(test)[k]) < n by {
                assert(s.contains(s.filter(test)[k]));
            }
        }
    }
}

/// The owner of a group is one of its members, and what is wrong with a group is said.
pub(crate) proof fn lemma_owner_is_member(
    entity: IdentifierView,
    target: Seq<char>,
    members: Seq<int>,
    fields: Seq<AnalyzedFieldView>,
)
    ensures
        match group_owner(entity, target, members, fields) {
            Ok(owner) => members.contains(owner),
            Err(messages) => messages.len() > 0,
        },
{
    let belongs_to = members.filter(belongs_to_test(fields));
    lemma_filter_within(members, belongs_to_test(fields), fields.len());
    lemma_filter_within(belongs_to, marked_test(fields), fields.len());
    let marked = belongs_to.filter(marked_test(fields));
    if marked.len() > 0 {
        assert(belongs_to.contains(marked[0]));
    }
}

/// The group at `k` is that of every field in it, and holds places within bounds.
pub(crate) proof fn lemma_group_members(fields: Seq<AnalyzedFieldView>, k: int, i: int)
    requires
        0 <= k < groups(fields).len(),
        groups(fields)[k].1.contains(i),
    ensures
        0 <= i < fields.len(),
        points_at(fields[i], groups(fields)[k].0),
        groups(fields)[k] == group_of(fields, i),
{
    lemma_groups(fields);
    let target = groups(fields)[k].0;
    assert(groups(fields)[k] == group_of(fields, leaders(fields)[k]));
    lemma_positions(fields.len(), member_test(fields, target));
}

/// A field is the owner of some group exactly if it owns `Related`.
pub(crate) proof fn lemma_owners(entity: IdentifierView, fields: Seq<AnalyzedFieldView>, i: int)
    requires
        0 <= i < fields.len(),
    ensures
        owns_related(entity, fields, i) <==> exists|k: int|
            #![trigger groups(fields)[k]]
            0 <= k < groups(fields).len() && group_owner(
                entity,
                groups(fields)[k].0,
                groups(fields)[k].1,
                fields,
            ) == Ok::<int, Seq<Message>>(i),
{
    if owns_related(entity, fields, i) {
        let k = lemma_group_exists(fields, i);
        assert(groups(fields)[k] == group_of(fields, i));
    }
    assert forall|k: int|
        #![trigger groups(fields)[k]]
        0 <= k < groups(fields).len() && group_owner(
            entity,
            groups(fields)[k].0,
            groups(fields)[k].1,
            fields,
        ) == Ok::<int, Seq<Message>>(i) implies owns_related(entity, fields, i) by {
        lemma_owner_is_member(entity, groups(fields)[k].0, groups(fields)[k].1, fields);
        lemma_group_members(fields, k, i);
    }
}

/// Whether two fields point at one entity.
pub open spec fn same_target(field: AnalyzedFieldView, other: AnalyzedFieldView) -> bool {
    target_of(field.ty) matches Some(ident) && points_at(other, ident.text)
}

/// Whether nothing is left open among the fields to one target: there is at most one has_many, at
/// most one marked belongs_to, and a marked one where there are several belongs_to.
pub open spec fn settled(fields: Seq<AnalyzedFieldView>, target: Seq<char>) -> bool {
    &&& forall|i: int, j: int|
        0 <= i < fields.len() && 0 <= j < fields.len() && points_at(#[trigger] fields[i], target)
            && points_at(#[trigger] fields[j], target) && fields[i].ty is HasMany
            && fields[j].ty is HasMany ==> i == j
    &&& forall|i: int, j: int|
        0 <= i < fields.len() && 0 <= j < fields.len() && points_at(#[trigger] fields[i], target)
            && points_at(#[trigger] fields[j], target) && fields[i].ty is BelongsTo
            && fields[j].ty is BelongsTo && fields[i].attrs.related && fields[j].attrs.related
            ==> i == j
    &&& forall|i: int, j: int|
        0 <= i < j < fields.len() && points_at(#[trigger] fields[i], target) && points_at(
            #[trigger] fields[j],
            target,
        ) && fields[i].ty is BelongsTo && fields[j].ty is BelongsTo ==> exists|m: int|
            0 <= m < fields.len() && points_at(#[trigger] fields[m], target) && fields[m].ty
                is BelongsTo && fields[m].attrs.related
}

/// Whether the field at `i` is the one to own `Related`: it is the only field to its target, or it
/// is a belongs_to and either the only one to its target or marked.
pub open spec fn nominated(fields: Seq<AnalyzedFieldView>, i: int) -> bool {
    &&& target_of(fields[i].ty) is Some
    &&& {
        ||| forall|j: int|
            0 <= j < fields.len() && same_target(fields[i], #[trigger] fields[j]) ==> j == i
        ||| fields[i].ty is BelongsTo && fields[i].attrs.related
        ||| fields[i].ty is BelongsTo && forall|j: int|
            0 <= j < fields.len() && same_target(fields[i], #[trigger] fields[j])
                && fields[j].ty is BelongsTo ==> j == i
    }
}

/// Holds at the has_many fields to a target.
pub(crate) open spec fn many_test(
    fields: Seq<AnalyzedFieldView>,
    target: Seq<char>,
) -> spec_fn(int) -> bool {
    |i: int| 0 <= i < fields.len() && points_at(fields[i], target) && fields[i].ty is HasMany
}

/// Holds at the belongs_to fields to a target.
pub(crate) open spec fn one_test(
    fields: Seq<AnalyzedFieldView>,
    target: Seq<char>,
) -> spec_fn(int) -> bool {
    |i: int| 0 <= i < fields.len() && points_at(fields[i], target) && fields[i].ty is BelongsTo
}

/// Holds at the marked belongs_to fields to a target.
pub(crate) open spec fn claim_test(
    fields: Seq<AnalyzedFieldView>,
    target: Seq<char>,
) -> spec_fn(int) -> bool {
    |i: int|
        0 <= i < fields.len() && points_at(fields[i], target) && fields[i].ty is BelongsTo
            && fields[i].attrs.related
}

/// The fields of a group by kind.
pub(crate) proof fn lemma_group_kinds(fields: Seq<AnalyzedFieldView>, target: Seq<char>)
    ensures
        members(fields, target).filter(other_kind_test(fields)) == positions(
            fields.len(),
            many_test(fields, target),
        ),
        members(fields, target).filter(belongs_to_test(fields)) == positions(
            fields.len(),
            one_test(fields, target),
        ),
        positions(fields.len(), one_test(fields, target)).filter(marked_test(fields)) == positions(
            fields.len(),
            claim_test(fields, target),
        ),
{
    let n = fields.len();
    let in_group = member_test(fields, target);
    lemma_positions_filter(n, in_group, other_kind_test(fields), many_test(fields, target));
    lemma_positions_filter(n, in_group, belongs_to_test(fields), one_test(fields, target));
    lemma_positions_filter(
        n,
        one_test(fields, target),
        marked_test(fields),
        claim_test(fields, target),
    );
}

/// Being settled is a matter of how many fields of each kind there are.
pub(crate) proof fn lemma_settled_counts(fields: Seq<AnalyzedFieldView>, target: Seq<char>)
    ensures
        settled(fields, target) <==> {
            &&& positions(fields.len(), many_test(fields, target)).len() <= 1
            &&& positions(fields.len(), claim_test(fields, target)).len() <= 1
            &&& positions(fields.len(), one_test(fields, target)).len() <= 1 || positions(
                fields.len(),
                claim_test(fields, target),
            ).len() > 0
        },
{
    let n = fields.len();
    let many = many_test(fields, target);
    let one = one_test(fields, target);
    let claim = claim_test(fields, target);
    lemma_positions_count(n, many);
    lemma_positions_count(n, one);
    lemma_positions_count(n, claim);
    if settled(fields, target) {
        assert forall|i: int, j: int|
            0 <= i < n && 0 <= j < n && #[trigger] many(i) && #[trigger] many(j) implies i == j by {
            assert(points_at(fields[i], target) && points_at(fields[j], target));
        }
        assert forall|i: int, j: int|
            0 <= i < n && 0 <= j < n && #[trigger] claim(i) && #[trigger] claim(
                j,
            ) implies i == j by {
            assert(points_at(fields[i], target) && points_at(fields[j], target));
        }
        if positions(n, one).len() > 1 {
            let (i, j) = choose|i: int, j: int|
                0 <= i < n && 0 <= j < n && #[trigger] one(i) && #[trigger] one(j) && i != j;
            let (a, b) = if i < j {
                (i, j)
            } else {
                (j, i)
            };
            assert(points_at(fields[a], target) && points_at(fields[b], target));
            let m = choose|m: int|
                0 <= m < fields.len() && points_at(#[trigger] fields[m], target) && fields[m].ty
                    is BelongsTo && fields[m].attrs.related;
            assert(claim(m));
        }
    } else {
        if positions(n, many).len() <= 1 {
            assert forall|i: int, j: int|
                0 <= i < n && 0 <= j < n && points_at(#[trigger] fields[i], target) && points_at(
                    #[trigger] fields[j],
                    target,
                ) && fields[i].ty is HasMany && fields[j].ty is HasMany implies i == j by {
                assert(many(i) && many(j));
            }
        }
        if positions(n, claim).len() <= 1 {
            assert forall|i: int, j: int|
                0 <= i < n && 0 <= j < n && points_at(#[trigger] fields[i], target) && points_at(
                    #[trigger] fields[j],
                    target,
                ) && fields[i].ty is BelongsTo && fields[j].ty is BelongsTo
                    && fields[i].attrs.related && fields[j].attrs.related implies i == j by {
                assert(claim(i) && claim(j));
            }
        }
        if positions(n, one).len() <= 1 {
            assert forall|i: int, j: int|
                0 <= i < j < n && points_at(#[trigger] fields[i], target) && points_at(
                    #[trigger] fields[j],
                    target,
                ) && fields[i].ty is BelongsTo && fields[j].ty is BelongsTo implies false by {
                assert(one(i) && one(j));
            }
        }
        if positions(n, claim).len() > 0 {
            let m = positions(n, claim)[0];
            assert(points_at(fields[m], target) && fields[m].ty is BelongsTo
                && fields[m].attrs.related);
        }
    }
}

/// A group has an owner exactly if it is settled.
pub(crate) proof fn lemma_owner_iff_settled(
    entity: IdentifierView,
    fields: Seq<AnalyzedFieldView>,
    target: Seq<char>,
    some: int,
)
    requires
        0 <= some < fields.len(),
        points_at(fields[some], target),
    ensures
        group_owner(entity, target, members(fields, target), fields) is Ok <==> settled(
            fields,
            target,
        ),
{
    lemma_group_kinds(fields, target);
    lemma_settled_counts(fields, target);
    lemma_kind_counts(fields, target);
    lemma_positions_count(fields.len(), member_test(fields, target));
    assert(member_test(fields, target)(some));
}

/// Every field of a group is of one of the two kinds.
pub(crate) proof fn lemma_kind_counts(fields: Seq<AnalyzedFieldView>, target: Seq<char>)
    ensures
        members(fields, target).len() == positions(fields.len(), many_test(fields, target)).len()
            + positions(fields.len(), one_test(fields, target)).len(),
        positions(fields.len(), claim_test(fields, target)).len() <= positions(
            fields.len(),
            one_test(fields, target),
        ).len(),
{
    lemma_kind_counts_below(fields, target, fields.len());
}

/// The same of the fields below a place.
proof fn lemma_kind_counts_below(fields: Seq<AnalyzedFieldView>, target: Seq<char>, n: nat)
    ensures
        positions(n, member_test(fields, target)).len() == positions(
            n,
            many_test(fields, target),
        ).len() + positions(n, one_test(fields, target)).len(),
        positions(n, claim_test(fields, target)).len() <= positions(
            n,
            one_test(fields, target),
        ).len(),
    decreases n,
{
    if n > 0 {
        lemma_kind_counts_below(fields, target, (n - 1) as nat);
    }
}

/// The owner of a group points at its target.
pub(crate) proof fn lemma_owner_points(
    entity: IdentifierView,
    fields: Seq<AnalyzedFieldView>,
    target: Seq<char>,
)
    ensures
        group_owner(entity, target, members(fields, target), fields) matches Ok(owner) ==> 0
            <= owner < fields.len() && points_at(fields[owner], target),
{
    lemma_owner_is_member(entity, target, members(fields, target), fields);
    lemma_positions(fields.len(), member_test(fields, target));
}

/// The owner of a group is nominated.
pub(crate) proof fn lemma_owner_is_nominated(
    entity: IdentifierView,
    fields: Seq<AnalyzedFieldView>,
    target: Seq<char>,
)
    ensures
        group_owner(entity, target, members(fields, target), fields) matches Ok(owner)
            ==> nominated(fields, owner),
{
    let n = fields.len();
    let all = members(fields, target);
    let verdict = group_owner(entity, target, all, fields);
    lemma_group_kinds(fields, target);
    lemma_owner_points(entity, fields, target);
    lemma_positions_count(n, member_test(fields, target));
    lemma_positions_count(n, one_test(fields, target));
    lemma_positions_count(n, claim_test(fields, target));
    if verdict is Ok {
        let owner = verdict->Ok_0;
        if all.len() == 1 {
            assert forall|j: int|
                0 <= j < n && same_target(fields[owner], #[trigger] fields[j]) implies j
                == owner by {
                assert(member_test(fields, target)(j));
                assert(member_test(fields, target)(owner));
            }
        } else if positions(n, one_test(fields, target)).len() == 1 {
            assert(one_test(fields, target)(owner));
            assert forall|j: int|
                0 <= j < n && same_target(fields[owner], #[trigger] fields[j]) && fields[j].ty
                    is BelongsTo implies j == owner by {
                assert(one_test(fields, target)(j));
            }
        } else {
            assert(claim_test(fields, target)(owner));
        }
    }
}

/// No other field of an owned group is nominated.
pub(crate) proof fn lemma_nominated_is_owner(
    entity: IdentifierView,
    fields: Seq<AnalyzedFieldView>,
    target: Seq<char>,
    i: int,
)
    requires
        0 <= i < fields.len(),
        points_at(fields[i], target),
        nominated(fields, i),
        group_owner(entity, target, members(fields, target), fields) is Ok,
    ensures
        group_owner(entity, target, members(fields, target), fields) == Ok::<int, Seq<Message>>(i),
{
    let n = fields.len();
    let owner = group_owner(entity, target, members(fields, target), fields)->Ok_0;
    lemma_owner_points(entity, fields, target);
    lemma_owner_is_nominated(entity, fields, target);
    lemma_owner_iff_settled(entity, fields, target, i);
    assert(same_target(fields[i], fields[owner]));
    assert(same_target(fields[owner], fields[i]));
    lemma_group_kinds(fields, target);
    lemma_kind_counts(fields, target);
    lemma_positions_count(n, many_test(fields, target));
    lemma_positions_count(n, one_test(fields, target));
    lemma_positions_count(n, claim_test(fields, target));
    lemma_positions_count(n, member_test(fields, target));
    assert(member_test(fields, target)(i));
    assert(member_test(fields, target)(owner));
    if i != owner {
        // Two fields, so both are belongs_to and nominated as such.
        assert(fields[i].ty is BelongsTo);
        assert(fields[owner].ty is BelongsTo);
        assert(one_test(fields, target)(i));
        assert(one_test(fields, target)(owner));
        assert(claim_test(fields, target)(i));
        assert(claim_test(fields, target)(owner));
    }
}

} // verus!
