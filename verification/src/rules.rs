//! What must hold of the entities of a document, and which fault an entity
//! that is offered to a document has.
//!
//! For each kind of entity there are two statements. One says when an entity
//! that is already in a document is sound against the rest of it. The other
//! names the one fault that is reported for an entity that is offered: faults
//! are looked for in a fixed order, and the first one found is the answer.

use vstd::prelude::*;
use crate::error::{validation_fault, EntityKind, Fault, Reference};
use crate::hierarchy::{forest_entries, grafted, node_entries, HierarchyEntry};
use crate::ident::{contains_id, distinct_ids, first_repeat, lookup, Identified};
use crate::model::{
    AttributeDefinition,
    AttributeValue,
    CoreContent,
    DatatypeDefinition,
    SpecHierarchy,
    SpecObject,
    SpecRelation,
    SpecType,
    Specification,
};
use crate::value::{datatype_sound, value_check};

verus! {

/// The first fault in a run of findings, each of which is a fault or none.
pub open spec fn first_fault(findings: Seq<Option<Fault>>) -> Option<Fault>
    decreases findings.len(),
{
    if findings.len() == 0 {
        None
    } else {
        match first_fault(findings.drop_last()) {
            Some(fault) => Some(fault),
            None => findings.last(),
        }
    }
}

/// There is no first fault exactly when every finding is none.
pub proof fn lemma_first_fault_none(findings: Seq<Option<Fault>>)
    ensures
        first_fault(findings) is None <==> forall|k: int|
            0 <= k < findings.len() ==> findings[k] is None,
    decreases findings.len(),
{
    if findings.len() > 0 {
        let front = findings.drop_last();
        lemma_first_fault_none(front);
        assert(forall|k: int| 0 <= k < front.len() ==> front[k] == findings[k]);
        if first_fault(findings) is None {
            assert forall|k: int| 0 <= k < findings.len() implies findings[k] is None by {
                if k < front.len() {
                    assert(front[k] is None);
                }
            }
        }
    }
}

/// A fault with no fault before it is the first fault.
pub proof fn lemma_first_fault_at(findings: Seq<Option<Fault>>, i: int)
    requires
        0 <= i < findings.len(),
        findings[i] is Some,
        forall|k: int| 0 <= k < i ==> findings[k] is None,
    ensures
        first_fault(findings) == findings[i],
    decreases findings.len(),
{
    let front = findings.drop_last();
    assert(forall|k: int| 0 <= k < front.len() ==> front[k] == findings[k]);
    if i == findings.len() - 1 {
        lemma_first_fault_none(front);
    } else {
        lemma_first_fault_at(front, i);
    }
}

/// The fault of one value of an entity of type `spec_type`: its attribute
/// definition is not one of the type's; or that definition's datatype is
/// unknown; or the value does not fit the datatype.
pub open spec fn value_fault(
    datatypes: Seq<DatatypeDefinition>,
    spec_type: SpecType,
    value: AttributeValue,
) -> Option<Fault> {
    match lookup(spec_type.spec_attributes@, value.slot()) {
        None => Some(Fault::DanglingReference(EntityKind::AttributeDefinition, value.slot())),
        Some(definition) => match lookup(datatypes, definition.datatype_ref@) {
            None => Some(
                Fault::DanglingReference(EntityKind::DatatypeDefinition, definition.datatype_ref@),
            ),
            Some(datatype) => match value_check(datatype, value) {
                Ok(_) => None,
                Err(error) => Some(validation_fault(error)),
            },
        },
    }
}

/// The finding for each of `values`, in order.
pub open spec fn value_findings(
    datatypes: Seq<DatatypeDefinition>,
    spec_type: SpecType,
    values: Seq<AttributeValue>,
) -> Seq<Option<Fault>> {
    Seq::new(values.len(), |k: int| value_fault(datatypes, spec_type, values[k]))
}

/// Every one of `values` fills a definition of `spec_type` and fits its
/// datatype.
pub open spec fn values_sound(
    datatypes: Seq<DatatypeDefinition>,
    spec_type: SpecType,
    values: Seq<AttributeValue>,
) -> bool {
    forall|k: int|
        0 <= k < values.len() ==> value_fault(datatypes, spec_type, #[trigger] values[k]) is None
}

/// The fault of an entity's type reference and values: the type is unknown,
/// or else the first fault among the values.
pub open spec fn typed_fault(
    content: CoreContent,
    type_ref: Seq<char>,
    values: Seq<AttributeValue>,
) -> Option<Fault> {
    match lookup(content.spec_types@, type_ref) {
        None => Some(Fault::DanglingReference(EntityKind::SpecType, type_ref)),
        Some(spec_type) => first_fault(
            value_findings(content.datatype_definitions@, spec_type, values),
        ),
    }
}

/// The type reference resolves, and the values are sound against that type.
pub open spec fn typed_sound(
    datatypes: Seq<DatatypeDefinition>,
    spec_types: Seq<SpecType>,
    type_ref: Seq<char>,
    values: Seq<AttributeValue>,
) -> bool {
    match lookup(spec_types, type_ref) {
        None => false,
        Some(spec_type) => values_sound(datatypes, spec_type, values),
    }
}

/// The finding for one attribute definition: its datatype is unknown, or
/// none.
pub open spec fn attribute_fault(
    datatypes: Seq<DatatypeDefinition>,
    definition: AttributeDefinition,
) -> Option<Fault> {
    if contains_id(datatypes, definition.datatype_ref@) {
        None
    } else {
        Some(Fault::DanglingReference(EntityKind::DatatypeDefinition, definition.datatype_ref@))
    }
}

/// The finding for each attribute definition, in order.
pub open spec fn attribute_findings(
    datatypes: Seq<DatatypeDefinition>,
    definitions: Seq<AttributeDefinition>,
) -> Seq<Option<Fault>> {
    Seq::new(definitions.len(), |k: int| attribute_fault(datatypes, definitions[k]))
}

/// The type declares no attribute identifier twice, and the datatype of each
/// attribute definition is known.
pub open spec fn spec_type_sound(datatypes: Seq<DatatypeDefinition>, spec_type: SpecType) -> bool {
    &&& distinct_ids(spec_type.spec_attributes@)
    &&& forall|k: int|
        0 <= k < spec_type.spec_attributes@.len() ==> contains_id(
            datatypes,
            (#[trigger] spec_type.spec_attributes@[k]).datatype_ref@,
        )
}

/// The finding for one line of a hierarchy's listing: its requirement is
/// unknown, or none.
pub open spec fn entry_fault(objects: Seq<SpecObject>, entry: HierarchyEntry) -> Option<Fault> {
    if contains_id(objects, entry.object@) {
        None
    } else {
        Some(Fault::DanglingReference(EntityKind::SpecObject, entry.object@))
    }
}

/// The finding for each line of a listing, in order.
pub open spec fn entry_findings(objects: Seq<SpecObject>, entries: Seq<HierarchyEntry>) -> Seq<
    Option<Fault>,
> {
    Seq::new(entries.len(), |k: int| entry_fault(objects, entries[k]))
}

/// Every line of the listing stands for a known requirement.
pub open spec fn entries_resolve(objects: Seq<SpecObject>, entries: Seq<HierarchyEntry>) -> bool {
    forall|k: int|
        0 <= k < entries.len() ==> contains_id(objects, (#[trigger] entries[k]).object@)
}

/// A listing is sound when no node identifier occurs twice in it and every
/// line stands for a known requirement.
pub open spec fn listing_sound(objects: Seq<SpecObject>, entries: Seq<HierarchyEntry>) -> bool {
    distinct_ids(entries) && entries_resolve(objects, entries)
}

/// The fault of a listing: some node identifier occurs twice; or else, the
/// first line whose requirement is unknown.
pub open spec fn listing_fault(objects: Seq<SpecObject>, entries: Seq<HierarchyEntry>) -> Option<
    Fault,
> {
    if distinct_ids(entries) {
        first_fault(entry_findings(objects, entries))
    } else {
        Some(Fault::CyclicHierarchy)
    }
}

/// The requirement's type is known and its values are sound.
pub open spec fn object_sound(
    datatypes: Seq<DatatypeDefinition>,
    spec_types: Seq<SpecType>,
    object: SpecObject,
) -> bool {
    typed_sound(datatypes, spec_types, object.spec_type@, object.values@)
}

/// The relation's type is known, its values are sound, and both of its ends
/// are known requirements.
pub open spec fn relation_sound(
    datatypes: Seq<DatatypeDefinition>,
    spec_types: Seq<SpecType>,
    objects: Seq<SpecObject>,
    relation: SpecRelation,
) -> bool {
    &&& typed_sound(datatypes, spec_types, relation.spec_type@, relation.values@)
    &&& contains_id(objects, relation.source@)
    &&& contains_id(objects, relation.target@)
}

/// The specification's type is known, its values are sound, and its
/// hierarchy is sound.
pub open spec fn specification_sound(
    datatypes: Seq<DatatypeDefinition>,
    spec_types: Seq<SpecType>,
    objects: Seq<SpecObject>,
    specification: Specification,
) -> bool {
    &&& typed_sound(datatypes, spec_types, specification.spec_type@, specification.values@)
    &&& listing_sound(objects, forest_entries(specification.children@))
}

/// The fault of a datatype that is offered to `content`: its identifier is
/// taken; or a lower bound exceeds an upper bound; or an enumeration
/// declares a value identifier twice.
pub open spec fn datatype_fault(content: CoreContent, datatype: DatatypeDefinition) -> Option<
    Fault,
> {
    if contains_id(content.datatype_definitions@, datatype.id()) {
        Some(Fault::DuplicateIdentifier(datatype.id()))
    } else {
        match datatype {
            DatatypeDefinition::Integer { min: Some(low), max: Some(high), .. } => if low
                <= high {
                None
            } else {
                Some(Fault::OutOfRange)
            },
            DatatypeDefinition::Real { min: Some(low), max: Some(high), .. } => if low.le(high) {
                None
            } else {
                Some(Fault::OutOfRange)
            },
            DatatypeDefinition::Enumeration { values, .. } => match first_repeat(values@) {
                Some(k) => Some(Fault::DuplicateIdentifier(values@[k].id())),
                None => None,
            },
            _ => None,
        }
    }
}

/// The fault of a spec type that is offered to `content`: its identifier is
/// taken; or it declares an attribute identifier twice; or the datatype of
/// one of its attribute definitions is unknown.
pub open spec fn spec_type_fault(content: CoreContent, spec_type: SpecType) -> Option<Fault> {
    if contains_id(content.spec_types@, spec_type.id()) {
        Some(Fault::DuplicateIdentifier(spec_type.id()))
    } else {
        match first_repeat(spec_type.spec_attributes@) {
            Some(k) => Some(Fault::DuplicateIdentifier(spec_type.spec_attributes@[k].id())),
            None => first_fault(
                attribute_findings(content.datatype_definitions@, spec_type.spec_attributes@),
            ),
        }
    }
}

/// The fault of a requirement that is offered to `content`: its identifier is
/// taken; or its type is unknown; or one of its values is at fault.
pub open spec fn object_fault(content: CoreContent, object: SpecObject) -> Option<Fault> {
    if contains_id(content.spec_objects@, object.id()) {
        Some(Fault::DuplicateIdentifier(object.id()))
    } else {
        typed_fault(content, object.spec_type@, object.values@)
    }
}

/// The fault of a requirement that is offered in place of the stored one
/// with the same identifier: none is stored under that identifier; or its
/// type is unknown; or one of its values is at fault.
pub open spec fn replacement_fault(content: CoreContent, object: SpecObject) -> Option<Fault> {
    if !contains_id(content.spec_objects@, object.id()) {
        Some(Fault::DanglingReference(EntityKind::SpecObject, object.id()))
    } else {
        typed_fault(content, object.spec_type@, object.values@)
    }
}

/// The fault of a relation that is offered to `content`: its identifier is
/// taken; or its type is unknown; or its source, or else its target, is no
/// known requirement; or one of its values is at fault.
pub open spec fn relation_fault(content: CoreContent, relation: SpecRelation) -> Option<Fault> {
    if contains_id(content.spec_relations@, relation.id()) {
        Some(Fault::DuplicateIdentifier(relation.id()))
    } else if lookup(content.spec_types@, relation.spec_type@) is None {
        Some(Fault::DanglingReference(EntityKind::SpecType, relation.spec_type@))
    } else if !contains_id(content.spec_objects@, relation.source@) {
        Some(Fault::DanglingReference(EntityKind::SpecObject, relation.source@))
    } else if !contains_id(content.spec_objects@, relation.target@) {
        Some(Fault::DanglingReference(EntityKind::SpecObject, relation.target@))
    } else {
        typed_fault(content, relation.spec_type@, relation.values@)
    }
}

/// The fault of a specification that is offered to `content`: its identifier
/// is taken; or its type is unknown; or one of its values is at fault; or
/// its hierarchy is.
pub open spec fn specification_fault(content: CoreContent, specification: Specification) -> Option<
    Fault,
> {
    if contains_id(content.specifications@, specification.id()) {
        Some(Fault::DuplicateIdentifier(specification.id()))
    } else {
        match typed_fault(content, specification.spec_type@, specification.values@) {
            Some(fault) => Some(fault),
            None => listing_fault(content.spec_objects@, forest_entries(specification.children@)),
        }
    }
}

/// The fault of a hierarchy node that is offered, with the tree under it, as
/// a new last child in the hierarchy of a specification: the specification
/// is unknown; or the parent that is named is no node of its hierarchy; or
/// the listing of the hierarchy together with the new tree has a fault.
pub open spec fn graft_fault(
    content: CoreContent,
    specification: Seq<char>,
    parent: Option<Seq<char>>,
    node: SpecHierarchy,
) -> Option<Fault> {
    match lookup(content.specifications@, specification) {
        None => Some(Fault::DanglingReference(EntityKind::Specification, specification)),
        Some(owner) => {
            let listing = forest_entries(owner.children@);
            if parent is Some && !contains_id(listing, parent->0) {
                Some(Fault::DanglingReference(EntityKind::SpecHierarchy, parent->0))
            } else {
                listing_fault(content.spec_objects@, listing + node_entries(node))
            }
        },
    }
}

/// `after` is the specification `before` with `node` grafted onto its
/// hierarchy, and nothing else changed.
pub open spec fn specification_grafted(
    before: Specification,
    after: Specification,
    parent: Option<Seq<char>>,
    node: SpecHierarchy,
) -> bool {
    &&& after.identifier == before.identifier
    &&& after.spec_type == before.spec_type
    &&& after.last_change == before.last_change
    &&& after.values == before.values
    &&& grafted(before.children@, after.children@, parent, node)
}

/// The relation has the requirement `id` as its source or its target.
pub open spec fn points_at(relation: SpecRelation, id: Seq<char>) -> bool {
    relation.source@ == id || relation.target@ == id
}

/// The relations among `relations` that point at the requirement `id`, in
/// order.
pub open spec fn relation_referrers(relations: Seq<SpecRelation>, id: Seq<char>) -> Seq<Reference>
    decreases relations.len(),
{
    if relations.len() == 0 {
        Seq::empty()
    } else {
        let rest = relation_referrers(relations.drop_last(), id);
        if points_at(relations.last(), id) {
            rest.push(Reference::Relation(relations.last().id()))
        } else {
            rest
        }
    }
}

/// The lines of a listing that stand for the requirement `id`, in order,
/// each as a node of the specification `owner`.
pub open spec fn entry_referrers(
    owner: Seq<char>,
    entries: Seq<HierarchyEntry>,
    id: Seq<char>,
) -> Seq<Reference>
    decreases entries.len(),
{
    if entries.len() == 0 {
        Seq::empty()
    } else {
        let rest = entry_referrers(owner, entries.drop_last(), id);
        if entries.last().object@ == id {
            rest.push(Reference::Hierarchy { specification: owner, node: entries.last().node@ })
        } else {
            rest
        }
    }
}

/// The hierarchy nodes of `specifications` that stand for the requirement
/// `id`: specification by specification, each hierarchy in pre-order.
pub open spec fn hierarchy_referrers(specifications: Seq<Specification>, id: Seq<char>) -> Seq<
    Reference,
>
    decreases specifications.len(),
{
    if specifications.len() == 0 {
        Seq::empty()
    } else {
        hierarchy_referrers(specifications.drop_last(), id) + entry_referrers(
            specifications.last().id(),
            forest_entries(specifications.last().children@),
            id,
        )
    }
}

/// Everything in `content` that points at the requirement `id`: the
/// relations first, then the hierarchy nodes.
pub open spec fn referrers(content: CoreContent, id: Seq<char>) -> Seq<Reference> {
    relation_referrers(content.spec_relations@, id) + hierarchy_referrers(
        content.specifications@,
        id,
    )
}

/// The fault of asking to remove the requirement `id`: there is none with
/// that identifier; or something still points at it.
pub open spec fn removal_fault(content: CoreContent, id: Seq<char>) -> Option<Fault> {
    if !contains_id(content.spec_objects@, id) {
        Some(Fault::DanglingReference(EntityKind::SpecObject, id))
    } else if referrers(content, id).len() > 0 {
        Some(Fault::ReferencedElsewhere(referrers(content, id)))
    } else {
        None
    }
}

/// No relation is listed exactly when none points at the requirement.
pub proof fn lemma_relation_referrers(relations: Seq<SpecRelation>, id: Seq<char>)
    ensures
        relation_referrers(relations, id).len() == 0 <==> forall|k: int|
            0 <= k < relations.len() ==> !points_at(#[trigger] relations[k], id),
    decreases relations.len(),
{
    if relations.len() > 0 {
        let front = relations.drop_last();
        lemma_relation_referrers(front, id);
        assert(forall|k: int| 0 <= k < front.len() ==> front[k] == relations[k]);
        if relation_referrers(relations, id).len() == 0 {
            assert forall|k: int| 0 <= k < relations.len() implies !points_at(
                #[trigger] relations[k],
                id,
            ) by {
                if k < front.len() {
                    assert(!points_at(front[k], id));
                }
            }
        } else if !points_at(relations.last(), id) {
            let k = choose|k: int| 0 <= k < front.len() && points_at(#[trigger] front[k], id);
            assert(points_at(relations[k], id));
        } else {
            assert(points_at(relations[relations.len() - 1], id));
        }
    }
}

/// No line is listed exactly when none stands for the requirement.
pub proof fn lemma_entry_referrers(owner: Seq<char>, entries: Seq<HierarchyEntry>, id: Seq<char>)
    ensures
        entry_referrers(owner, entries, id).len() == 0 <==> forall|k: int|
            0 <= k < entries.len() ==> (#[trigger] entries[k]).object@ != id,
    decreases entries.len(),
{
    if entries.len() > 0 {
        let front = entries.drop_last();
        lemma_entry_referrers(owner, front, id);
        assert(forall|k: int| 0 <= k < front.len() ==> front[k] == entries[k]);
        if entry_referrers(owner, entries, id).len() == 0 {
            assert forall|k: int| 0 <= k < entries.len() implies (#[trigger] entries[k]).object@
                != id by {
                if k < front.len() {
                    assert(front[k].object@ != id);
                }
            }
        } else if entries.last().object@ != id {
            let k = choose|k: int| 0 <= k < front.len() && (#[trigger] front[k]).object@ == id;
            assert(entries[k].object@ == id);
        } else {
            assert(entries[entries.len() - 1].object@ == id);
        }
    }
}

/// No hierarchy node is listed exactly when no line of any hierarchy
/// stands for the requirement.
pub proof fn lemma_hierarchy_referrers(specifications: Seq<Specification>, id: Seq<char>)
    ensures
        hierarchy_referrers(specifications, id).len() == 0 <==> forall|k: int, m: int|
            0 <= k < specifications.len() && 0 <= m < forest_entries(
                specifications[k].children@,
            ).len() ==> (#[trigger] forest_entries(specifications[k].children@)[m]).object@ != id,
    decreases specifications.len(),
{
    if specifications.len() > 0 {
        let front = specifications.drop_last();
        let last = specifications.last();
        let listing = forest_entries(last.children@);
        lemma_hierarchy_referrers(front, id);
        lemma_entry_referrers(last.id(), listing, id);
        assert(forall|k: int| 0 <= k < front.len() ==> front[k] == specifications[k]);
        if hierarchy_referrers(specifications, id).len() == 0 {
            assert forall|k: int, m: int|
                0 <= k < specifications.len() && 0 <= m < forest_entries(
                    specifications[k].children@,
                ).len() implies (#[trigger] forest_entries(
                specifications[k].children@,
            )[m]).object@ != id by {
                if k < front.len() {
                    assert(forest_entries(front[k].children@)[m].object@ != id);
                } else {
                    assert(listing[m].object@ != id);
                }
            }
        } else if hierarchy_referrers(front, id).len() > 0 {
            let (k, m) = choose|k: int, m: int|
                0 <= k < front.len() && 0 <= m < forest_entries(front[k].children@).len() && (
                #[trigger] forest_entries(front[k].children@)[m]).object@ == id;
            assert(forest_entries(specifications[k].children@)[m].object@ == id);
        } else {
            let m = choose|m: int| 0 <= m < listing.len() && (#[trigger] listing[m]).object@ == id;
            assert(forest_entries(specifications[specifications.len() - 1].children@)[m].object@
                == id);
        }
    }
}

/// Every invariant of a document's content: in each namespace no identifier
/// occurs twice, and every entity is sound against the others.
pub open spec fn content_consistent(content: CoreContent) -> bool {
    &&& distinct_ids(content.datatype_definitions@)
    &&& forall|k: int|
        0 <= k < content.datatype_definitions@.len() ==> datatype_sound(
            #[trigger] content.datatype_definitions@[k],
        )
    &&& distinct_ids(content.spec_types@)
    &&& forall|k: int|
        0 <= k < content.spec_types@.len() ==> spec_type_sound(
            content.datatype_definitions@,
            #[trigger] content.spec_types@[k],
        )
    &&& distinct_ids(content.spec_objects@)
    &&& forall|k: int|
        0 <= k < content.spec_objects@.len() ==> object_sound(
            content.datatype_definitions@,
            content.spec_types@,
            #[trigger] content.spec_objects@[k],
        )
    &&& distinct_ids(content.spec_relations@)
    &&& forall|k: int|
        0 <= k < content.spec_relations@.len() ==> relation_sound(
            content.datatype_definitions@,
            content.spec_types@,
            content.spec_objects@,
            #[trigger] content.spec_relations@[k],
        )
    &&& distinct_ids(content.specifications@)
    &&& forall|k: int|
        0 <= k < content.specifications@.len() ==> specification_sound(
            content.datatype_definitions@,
            content.spec_types@,
            content.spec_objects@,
            #[trigger] content.specifications@[k],
        )
}

} // verus!
