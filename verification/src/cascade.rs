//! Removing a requirement together with everything that points at it.
//!
//! The relations that have the requirement as an end go, and so does every
//! hierarchy node that stands for it, with the tree under that node. What
//! stays keeps its order.

use vstd::prelude::*;
use crate::hierarchy::{forest_entries, forest_pruned, lemma_forest_pruned_listing, prune};
use crate::ident::{
    contains_id,
    embedding,
    lemma_embedding_distinct,
    Identified,
};
use crate::model::{CoreContent, SpecRelation, Specification};
use crate::preserve::lemma_contains_after_remove;
use crate::rules::{
    content_consistent,
    object_sound,
    points_at,
    relation_sound,
    specification_sound,
};

verus! {

/// The relations among `relations` that do not point at the requirement
/// `id`, in order.
pub open spec fn relations_without(relations: Seq<SpecRelation>, id: Seq<char>) -> Seq<
    SpecRelation,
>
    decreases relations.len(),
{
    if relations.len() == 0 {
        Seq::empty()
    } else {
        let rest = relations_without(relations.drop_last(), id);
        if points_at(relations.last(), id) {
            rest
        } else {
            rest.push(relations.last())
        }
    }
}

/// `after` is the specification `before` with its hierarchy pruned of the
/// requirement `id`, and nothing else changed.
pub open spec fn specification_pruned(
    before: Specification,
    after: Specification,
    id: Seq<char>,
) -> bool {
    &&& after.identifier == before.identifier
    &&& after.spec_type == before.spec_type
    &&& after.last_change == before.last_change
    &&& after.values == before.values
    &&& forest_pruned(before.children@, after.children@, id)
}

/// `after` holds the specifications `before`, each with its hierarchy
/// pruned of the requirement `id`.
pub open spec fn specifications_pruned(
    before: Seq<Specification>,
    after: Seq<Specification>,
    id: Seq<char>,
) -> bool {
    &&& after.len() == before.len()
    &&& forall|j: int|
        0 <= j < before.len() ==> specification_pruned(before[j], #[trigger] after[j], id)
}

/// The relations that stay are relations of before, in their order, and
/// none of them points at the requirement.
pub proof fn lemma_relations_without(relations: Seq<SpecRelation>, id: Seq<char>) -> (places: Seq<
    int,
>)
    ensures
        embedding(relations_without(relations, id), relations, places),
        forall|i: int|
            0 <= i < relations_without(relations, id).len() ==> !points_at(
                #[trigger] relations_without(relations, id)[i],
                id,
            ),
    decreases relations.len(),
{
    if relations.len() == 0 {
        Seq::empty()
    } else {
        let front = lemma_relations_without(relations.drop_last(), id);
        let rest = relations_without(relations.drop_last(), id);
        let kept = relations_without(relations, id);
        let places = if points_at(relations.last(), id) {
            front
        } else {
            front.push(relations.len() - 1)
        };
        assert forall|i: int| 0 <= i < kept.len() implies 0 <= #[trigger] places[i]
            < relations.len() && kept[i] == relations[places[i]] by {
            if i < rest.len() {
                assert(kept[i] == rest[i]);
                assert(places[i] == front[i]);
                assert(rest[i] == relations.drop_last()[front[i]]);
            }
        }
        assert forall|i: int, j: int| 0 <= i < j < kept.len() implies #[trigger] places[i]
            < #[trigger] places[j] by {
            assert(places[i] == front[i]);
            if j < rest.len() {
                assert(front[i] < front[j]);
            }
        }
        assert forall|i: int| 0 <= i < kept.len() implies !points_at(#[trigger] kept[i], id) by {
            if i < rest.len() {
                assert(kept[i] == rest[i]);
                assert(!points_at(rest[i], id));
            }
        }
        places
    }
}

/// A consistent content stays consistent when a requirement goes together
/// with everything that points at it.
pub proof fn lemma_consistent_after_cascade(before: CoreContent, after: CoreContent, k: int)
    requires
        content_consistent(before),
        0 <= k < before.spec_objects@.len(),
        after.datatype_definitions@ == before.datatype_definitions@,
        after.spec_types@ == before.spec_types@,
        after.spec_objects@ == before.spec_objects@.remove(k),
        after.spec_relations@ == relations_without(
            before.spec_relations@,
            before.spec_objects@[k].id(),
        ),
        specifications_pruned(
            before.specifications@,
            after.specifications@,
            before.spec_objects@[k].id(),
        ),
    ensures
        content_consistent(after),
{
    let objects = before.spec_objects@;
    let rest = after.spec_objects@;
    let id = objects[k].id();
    let datatypes = before.datatype_definitions@;
    let types = before.spec_types@;
    assert forall|j: int| 0 <= j < rest.len() implies #[trigger] rest[j] == objects[if j < k {
        j
    } else {
        j + 1
    }] by {}
    assert forall|i: int, j: int| 0 <= i < j < rest.len() implies #[trigger] rest[i].id()
        != #[trigger] rest[j].id() by {
        let x = if i < k {
            i
        } else {
            i + 1
        };
        let y = if j < k {
            j
        } else {
            j + 1
        };
        assert(objects[x].id() != objects[y].id());
    }
    assert forall|j: int| 0 <= j < rest.len() implies object_sound(
        after.datatype_definitions@,
        after.spec_types@,
        #[trigger] rest[j],
    ) by {
        let x = if j < k {
            j
        } else {
            j + 1
        };
        assert(object_sound(datatypes, types, objects[x]));
    }
    let relations = before.spec_relations@;
    let kept = after.spec_relations@;
    let places = lemma_relations_without(relations, id);
    lemma_embedding_distinct(kept, relations, places);
    assert forall|j: int| 0 <= j < kept.len() implies relation_sound(
        after.datatype_definitions@,
        after.spec_types@,
        after.spec_objects@,
        #[trigger] kept[j],
    ) by {
        let relation = relations[places[j]];
        assert(kept[j] == relation);
        assert(relation_sound(datatypes, types, objects, relation));
        assert(!points_at(kept[j], id));
        lemma_contains_after_remove(objects, k, relation.source@);
        lemma_contains_after_remove(objects, k, relation.target@);
    }
    let old_specs = before.specifications@;
    let new_specs = after.specifications@;
    assert forall|j: int| 0 <= j < new_specs.len() implies (#[trigger] new_specs[j]).id()
        == old_specs[j].id() by {
        assert(specification_pruned(old_specs[j], new_specs[j], id));
    }
    assert forall|i: int, j: int| 0 <= i < j < new_specs.len() implies #[trigger] new_specs[i].id()
        != #[trigger] new_specs[j].id() by {
        assert(old_specs[i].id() != old_specs[j].id());
        assert(new_specs[i].id() == old_specs[i].id());
        assert(new_specs[j].id() == old_specs[j].id());
    }
    assert forall|j: int| 0 <= j < new_specs.len() implies specification_sound(
        after.datatype_definitions@,
        after.spec_types@,
        after.spec_objects@,
        #[trigger] new_specs[j],
    ) by {
        assert(specification_pruned(old_specs[j], new_specs[j], id));
        assert(specification_sound(datatypes, types, objects, old_specs[j]));
        let whole = forest_entries(old_specs[j].children@);
        let part = forest_entries(new_specs[j].children@);
        let lines = lemma_forest_pruned_listing(old_specs[j].children@, new_specs[j].children@, id);
        lemma_embedding_distinct(part, whole, lines);
        assert forall|m: int| 0 <= m < part.len() implies contains_id(
            rest,
            (#[trigger] part[m]).object@,
        ) by {
            assert(part[m] == whole[lines[m]]);
            assert(contains_id(objects, whole[lines[m]].object@));
            lemma_contains_after_remove(objects, k, part[m].object@);
        }
    }
}

/// Takes out of `relations` every relation that points at the requirement
/// `id`.
pub fn drop_relations(relations: &mut Vec<SpecRelation>, id: &String)
    ensures
        final(relations)@ == relations_without(old(relations)@, id@),
{
    let mut i: usize = 0;
    let ghost mut done: int = 0;
    proof {
        assert(old(relations)@.take(0) =~= Seq::<SpecRelation>::empty());
        assert(relations@.take(0) =~= Seq::<SpecRelation>::empty());
    }
    while i < relations.len()
        invariant
            0 <= i <= relations.len(),
            0 <= done <= old(relations)@.len(),
            relations@.len() - i == old(relations)@.len() - done,
            forall|t: int|
                0 <= t < relations@.len() - i ==> #[trigger] relations@[i + t] == old(
                    relations,
                )@[done + t],
            relations@.take(i as int) == relations_without(old(relations)@.take(done), id@),
        decreases relations.len() - i,
    {
        let ghost kept = relations@.take(i as int);
        let ghost current = relations@;
        proof {
            assert(relations@[i + 0] == old(relations)@[done + 0]);
            assert(old(relations)@.take(done + 1).drop_last() =~= old(relations)@.take(done));
            assert(old(relations)@.take(done + 1).last() == old(relations)@[done]);
        }
        if relations[i].source == *id || relations[i].target == *id {
            relations.remove(i);
            proof {
                assert(relations@.take(i as int) =~= kept);
                assert forall|t: int| 0 <= t < relations@.len() - i implies #[trigger] relations@[i
                    + t] == old(relations)@[done + 1 + t] by {
                    assert(relations@[i + t] == current[i + (t + 1)]);
                }
                done = done + 1;
            }
        } else {
            proof {
                assert(relations@.take(i + 1) =~= kept.push(relations@[i as int]));
                assert forall|t: int| 0 <= t < relations@.len() - (i + 1) implies
                    #[trigger] relations@[i + 1 + t] == old(relations)@[done + 1 + t] by {
                    assert(relations@[i + 1 + t] == current[i + (t + 1)]);
                }
                done = done + 1;
            }
            i = i + 1;
        }
    }
    proof {
        assert(old(relations)@.take(done) =~= old(relations)@);
        assert(relations@.take(i as int) =~= relations@);
    }
}

/// Prunes the hierarchy of every specification of the requirement `id`.
pub fn prune_specifications(specifications: &mut Vec<Specification>, id: &String)
    ensures
        specifications_pruned(old(specifications)@, final(specifications)@, id@),
{
    let mut i: usize = 0;
    while i < specifications.len()
        invariant
            i <= specifications.len(),
            specifications@.len() == old(specifications)@.len(),
            forall|j: int|
                0 <= j < i ==> specification_pruned(
                    old(specifications)@[j],
                    #[trigger] specifications@[j],
                    id@,
                ),
            forall|j: int|
                i <= j < specifications@.len() ==> #[trigger] specifications@[j] == old(
                    specifications,
                )@[j],
        decreases specifications.len() - i,
    {
        let specification = &mut specifications[i];
        prune(&mut specification.children, id);
        i = i + 1;
    }
}

} // verus!
