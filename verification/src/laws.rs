//! What holds of every consistent document.

use vstd::prelude::*;
use crate::document::{assembles, ReqIF};
use crate::error::Fault;
use crate::hierarchy::{
    forest_entries,
    forest_has_ancestor,
    lemma_forest_ancestor_listed,
    node_entries,
};
use crate::ident::{
    contains_id,
    distinct_ids,
    lemma_position,
    lemma_position_is,
    lookup,
    position,
    Identified,
};
use crate::model::{CoreContent, SpecHierarchy};
use crate::rules::{
    content_consistent,
    graft_fault,
    lemma_hierarchy_referrers,
    lemma_relation_referrers,
    object_sound,
    points_at,
    referrers,
    removal_fault,
    value_fault,
};
use crate::value::value_check;

verus! {

/// In a namespace without repeated identifiers, looking up the identifier
/// of an entity that is stored there gives that entity, at its own place.
pub proof fn lemma_lookup_own<T: Identified>(items: Seq<T>, i: int)
    requires
        distinct_ids(items),
        0 <= i < items.len(),
    ensures
        position(items, items[i].id()) == Some(i),
        lookup(items, items[i].id()) == Some(items[i]),
{
    assert forall|j: int| 0 <= j < i implies #[trigger] items[j].id() != items[i].id() by {}
    lemma_position_is(items, items[i].id(), i);
}

/// In a consistent content every reference of a requirement resolves: its
/// type is a spec type of the content; each of its values fills an
/// attribute definition that this very type declares; the datatype of that
/// definition is a datatype of the content; and the value fits it.
pub proof fn lemma_reference_integrity(content: CoreContent, i: int, j: int)
    requires
        content_consistent(content),
        0 <= i < content.spec_objects@.len(),
        0 <= j < content.spec_objects@[i].values@.len(),
    ensures
        ({
            let object = content.spec_objects@[i];
            let value = object.values@[j];
            &&& lookup(content.spec_types@, object.spec_type@) matches Some(spec_type)
            &&& position(content.spec_types@, object.spec_type@) matches Some(t)
            &&& content.spec_types@[t] == spec_type
            &&& position(spec_type.spec_attributes@, value.slot()) matches Some(a)
            &&& 0 <= a < spec_type.spec_attributes@.len()
            &&& spec_type.spec_attributes@[a].id() == value.slot()
            &&& lookup(
                content.datatype_definitions@,
                spec_type.spec_attributes@[a].datatype_ref@,
            ) matches Some(datatype)
            &&& value_check(datatype, value) is Ok
        }),
{
    let object = content.spec_objects@[i];
    let value = object.values@[j];
    assert(object_sound(content.datatype_definitions@, content.spec_types@, object));
    let spec_type = lookup(content.spec_types@, object.spec_type@)->0;
    assert(value_fault(content.datatype_definitions@, spec_type, value) is None);
    lemma_position(spec_type.spec_attributes@, value.slot());
}

/// A requirement that a relation has as an end, or that a hierarchy node
/// stands for, cannot be removed: asking for it is answered with the list of
/// what points at it, and that list is not empty.
pub proof fn lemma_referenced_is_kept(content: CoreContent, id: Seq<char>)
    requires
        contains_id(content.spec_objects@, id),
        ({
            ||| exists|k: int|
                0 <= k < content.spec_relations@.len() && points_at(
                    #[trigger] content.spec_relations@[k],
                    id,
                )
            ||| exists|k: int, m: int|
                0 <= k < content.specifications@.len() && 0 <= m < forest_entries(
                    content.specifications@[k].children@,
                ).len() && (#[trigger] forest_entries(
                    content.specifications@[k].children@,
                )[m]).object@ == id
        }),
    ensures
        removal_fault(content, id) == Some(Fault::ReferencedElsewhere(referrers(content, id))),
        referrers(content, id).len() > 0,
{
    lemma_relation_referrers(content.spec_relations@, id);
    lemma_hierarchy_referrers(content.specifications@, id);
}

/// A node whose tree holds the identifier of a node that is already in the
/// hierarchy cannot be added to it: the answer is that the hierarchy would
/// be cyclic.
pub proof fn lemma_known_node_is_cyclic(
    content: CoreContent,
    specification: Seq<char>,
    parent: Option<Seq<char>>,
    node: SpecHierarchy,
    known: Seq<char>,
)
    requires
        lookup(content.specifications@, specification) matches Some(owner) && {
            &&& parent matches Some(p) ==> contains_id(forest_entries(owner.children@), p)
            &&& contains_id(forest_entries(owner.children@), known)
        },
        contains_id(node_entries(node), known),
    ensures
        graft_fault(content, specification, parent, node) == Some(Fault::CyclicHierarchy),
{
    let owner = lookup(content.specifications@, specification)->0;
    let listing = forest_entries(owner.children@);
    let part = node_entries(node);
    let joined = listing + part;
    let a = choose|a: int| 0 <= a < listing.len() && #[trigger] listing[a].id() == known;
    let b = choose|b: int| 0 <= b < part.len() && #[trigger] part[b].id() == known;
    assert(joined[a].id() == known);
    assert(joined[listing.len() + b].id() == known);
}

/// A node whose tree holds the identifier of the parent it is offered to,
/// or of an ancestor of that parent, cannot be added: the answer is that the
/// hierarchy would be cyclic.
pub proof fn lemma_ancestor_is_cyclic(
    content: CoreContent,
    specification: Seq<char>,
    parent: Seq<char>,
    node: SpecHierarchy,
    ancestor: Seq<char>,
)
    requires
        lookup(content.specifications@, specification) matches Some(owner)
            && forest_has_ancestor(owner.children@, ancestor, parent),
        contains_id(node_entries(node), ancestor),
    ensures
        graft_fault(content, specification, Some(parent), node) == Some(Fault::CyclicHierarchy),
{
    let owner = lookup(content.specifications@, specification)->0;
    lemma_forest_ancestor_listed(owner.children@, ancestor, parent);
    lemma_known_node_is_cyclic(content, specification, Some(parent), node, ancestor);
}

/// The parts of a consistent document make that document again: what is
/// taken apart can always be put together, with the same header, the same
/// entities in the same order and the same tool extensions.
pub proof fn lemma_parts_assemble(document: ReqIF)
    requires
        document.wf(),
    ensures
        assembles(document.head(), document.content(), document.extensions()),
{
}

} // verus!
