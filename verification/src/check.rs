//! Looking for the fault of an entity that is offered to a document.
//!
//! Each function here answers with the fault that the rules name for its
//! input, or with `Ok` where they name none.

use vstd::prelude::*;
use crate::error::{references, EntityKind, Fault, ModelError, Reference, Referrer};
use crate::hierarchy::{flatten, HierarchyEntry};
use crate::ident::{
    contains_id,
    distinct_ids,
    find,
    find_repeat,
    lemma_first_repeat,
    lemma_position,
    Identified,
};
use crate::preserve::{
    lemma_attribute_findings_none,
    lemma_listing_fault_none,
    lemma_typed_fault_none,
};
use crate::model::{
    AttributeDefinition,
    AttributeValue,
    CoreContent,
    DatatypeDefinition,
    SpecObject,
    SpecRelation,
    SpecType,
    Specification,
};
use crate::rules::{
    attribute_findings,
    content_consistent,
    datatype_fault,
    entry_findings,
    entry_referrers,
    first_fault,
    hierarchy_referrers,
    lemma_first_fault_at,
    lemma_first_fault_none,
    listing_fault,
    object_fault,
    object_sound,
    referrers,
    relation_fault,
    relation_referrers,
    relation_sound,
    removal_fault,
    replacement_fault,
    spec_type_fault,
    spec_type_sound,
    specification_fault,
    specification_sound,
    typed_fault,
    typed_sound,
    value_fault,
    value_findings,
};
use crate::value::{datatype_sound, validate_value};

verus! {

/// `outcome` reports exactly `fault`: it is `Ok` where there is none, and
/// otherwise the error that stands for it.
pub open spec fn reports(outcome: Result<(), ModelError>, fault: Option<Fault>) -> bool {
    match outcome {
        Ok(_) => fault is None,
        Err(error) => fault == Some(error@),
    }
}

/// Looks for the fault of one value of an entity of type `spec_type`.
pub fn check_value(
    datatypes: &Vec<DatatypeDefinition>,
    spec_type: &SpecType,
    value: &AttributeValue,
) -> (outcome: Result<(), ModelError>)
    ensures
        reports(outcome, value_fault(datatypes@, *spec_type, *value)),
{
    let slot = value.definition();
    match find(&spec_type.spec_attributes, slot) {
        None => Err(ModelError::DanglingReference(EntityKind::AttributeDefinition, slot.clone())),
        Some(at) => {
            let definition = &spec_type.spec_attributes[at];
            match find(datatypes, &definition.datatype_ref) {
                None => Err(
                    ModelError::DanglingReference(
                        EntityKind::DatatypeDefinition,
                        definition.datatype_ref.clone(),
                    ),
                ),
                Some(found) => match validate_value(&datatypes[found], value) {
                    Ok(_) => Ok(()),
                    Err(error) => Err(ModelError::from_validation(error)),
                },
            }
        },
    }
}

/// Looks for the first fault among the values of an entity of type
/// `spec_type`.
pub fn check_values(
    datatypes: &Vec<DatatypeDefinition>,
    spec_type: &SpecType,
    values: &Vec<AttributeValue>,
) -> (outcome: Result<(), ModelError>)
    ensures
        reports(outcome, first_fault(value_findings(datatypes@, *spec_type, values@))),
{
    let ghost findings = value_findings(datatypes@, *spec_type, values@);
    let mut i: usize = 0;
    while i < values.len()
        invariant
            i <= values.len(),
            findings == value_findings(datatypes@, *spec_type, values@),
            forall|k: int| 0 <= k < i ==> findings[k] is None,
        decreases values.len() - i,
    {
        match check_value(datatypes, spec_type, &values[i]) {
            Ok(_) => {},
            Err(error) => {
                proof {
                    lemma_first_fault_at(findings, i as int);
                }
                return Err(error);
            },
        }
        i = i + 1;
    }
    proof {
        lemma_first_fault_none(findings);
    }
    Ok(())
}

/// Looks for the fault of an entity's type reference and values.
pub fn check_typed(content: &CoreContent, type_ref: &String, values: &Vec<AttributeValue>) -> (outcome:
    Result<(), ModelError>)
    ensures
        reports(outcome, typed_fault(*content, type_ref@, values@)),
{
    match find(&content.spec_types, type_ref) {
        None => Err(ModelError::DanglingReference(EntityKind::SpecType, type_ref.clone())),
        Some(at) => check_values(&content.datatype_definitions, &content.spec_types[at], values),
    }
}

/// Looks for the first attribute definition whose datatype is unknown.
pub fn check_attributes(
    datatypes: &Vec<DatatypeDefinition>,
    definitions: &Vec<AttributeDefinition>,
) -> (outcome: Result<(), ModelError>)
    ensures
        reports(outcome, first_fault(attribute_findings(datatypes@, definitions@))),
{
    let ghost findings = attribute_findings(datatypes@, definitions@);
    let mut i: usize = 0;
    while i < definitions.len()
        invariant
            i <= definitions.len(),
            findings == attribute_findings(datatypes@, definitions@),
            forall|k: int| 0 <= k < i ==> findings[k] is None,
        decreases definitions.len() - i,
    {
        let target = &definitions[i].datatype_ref;
        proof {
            lemma_position(datatypes@, target@);
        }
        if find(datatypes, target).is_none() {
            proof {
                lemma_first_fault_at(findings, i as int);
            }
            return Err(
                ModelError::DanglingReference(EntityKind::DatatypeDefinition, target.clone()),
            );
        }
        i = i + 1;
    }
    proof {
        lemma_first_fault_none(findings);
    }
    Ok(())
}

/// Looks for the fault of a hierarchy's listing.
pub fn check_listing(objects: &Vec<SpecObject>, entries: &Vec<HierarchyEntry>) -> (outcome: Result<
    (),
    ModelError,
>)
    ensures
        reports(outcome, listing_fault(objects@, entries@)),
{
    proof {
        lemma_first_repeat(entries@);
    }
    if find_repeat(entries).is_some() {
        return Err(ModelError::CyclicHierarchy);
    }
    let ghost findings = entry_findings(objects@, entries@);
    let mut i: usize = 0;
    while i < entries.len()
        invariant
            i <= entries.len(),
            distinct_ids(entries@),
            findings == entry_findings(objects@, entries@),
            forall|k: int| 0 <= k < i ==> findings[k] is None,
        decreases entries.len() - i,
    {
        let target = &entries[i].object;
        proof {
            lemma_position(objects@, target@);
        }
        if find(objects, target).is_none() {
            proof {
                lemma_first_fault_at(findings, i as int);
            }
            return Err(ModelError::DanglingReference(EntityKind::SpecObject, target.clone()));
        }
        i = i + 1;
    }
    proof {
        lemma_first_fault_none(findings);
    }
    Ok(())
}

/// Looks for the fault of a datatype that is offered to `content`.
pub fn check_datatype(content: &CoreContent, datatype: &DatatypeDefinition) -> (outcome: Result<
    (),
    ModelError,
>)
    ensures
        reports(outcome, datatype_fault(*content, *datatype)),
{
    let name = datatype.identifier();
    proof {
        lemma_position(content.datatype_definitions@, name@);
    }
    if find(&content.datatype_definitions, name).is_some() {
        return Err(ModelError::DuplicateIdentifier(name.clone()));
    }
    match datatype {
        DatatypeDefinition::Integer { min: Some(low), max: Some(high), .. } => {
            if *low <= *high {
                Ok(())
            } else {
                Err(ModelError::OutOfRange)
            }
        },
        DatatypeDefinition::Real { min: Some(low), max: Some(high), .. } => {
            if low.is_le(*high) {
                Ok(())
            } else {
                Err(ModelError::OutOfRange)
            }
        },
        DatatypeDefinition::Enumeration { values, .. } => {
            match find_repeat(values) {
                Some(k) => Err(ModelError::DuplicateIdentifier(values[k].identifier.clone())),
                None => Ok(()),
            }
        },
        _ => Ok(()),
    }
}

/// Looks for the fault of a spec type that is offered to `content`.
pub fn check_spec_type(content: &CoreContent, spec_type: &SpecType) -> (outcome: Result<
    (),
    ModelError,
>)
    ensures
        reports(outcome, spec_type_fault(*content, *spec_type)),
{
    proof {
        lemma_position(content.spec_types@, spec_type.identifier@);
    }
    if find(&content.spec_types, &spec_type.identifier).is_some() {
        return Err(ModelError::DuplicateIdentifier(spec_type.identifier.clone()));
    }
    match find_repeat(&spec_type.spec_attributes) {
        Some(k) => Err(
            ModelError::DuplicateIdentifier(spec_type.spec_attributes[k].identifier.clone()),
        ),
        None => check_attributes(&content.datatype_definitions, &spec_type.spec_attributes),
    }
}

/// Looks for the fault of a requirement that is offered to `content`.
pub fn check_object(content: &CoreContent, object: &SpecObject) -> (outcome: Result<
    (),
    ModelError,
>)
    ensures
        reports(outcome, object_fault(*content, *object)),
{
    proof {
        lemma_position(content.spec_objects@, object.identifier@);
    }
    if find(&content.spec_objects, &object.identifier).is_some() {
        return Err(ModelError::DuplicateIdentifier(object.identifier.clone()));
    }
    check_typed(content, &object.spec_type, &object.values)
}

/// Looks for the fault of a requirement that is offered in place of the
/// stored one with the same identifier.
pub fn check_replacement(content: &CoreContent, object: &SpecObject) -> (outcome: Result<
    (),
    ModelError,
>)
    ensures
        reports(outcome, replacement_fault(*content, *object)),
{
    proof {
        lemma_position(content.spec_objects@, object.identifier@);
    }
    if find(&content.spec_objects, &object.identifier).is_none() {
        return Err(
            ModelError::DanglingReference(EntityKind::SpecObject, object.identifier.clone()),
        );
    }
    check_typed(content, &object.spec_type, &object.values)
}

/// Looks for the fault of a relation that is offered to `content`.
pub fn check_relation(content: &CoreContent, relation: &SpecRelation) -> (outcome: Result<
    (),
    ModelError,
>)
    ensures
        reports(outcome, relation_fault(*content, *relation)),
{
    proof {
        lemma_position(content.spec_relations@, relation.identifier@);
        lemma_position(content.spec_objects@, relation.source@);
        lemma_position(content.spec_objects@, relation.target@);
    }
    if find(&content.spec_relations, &relation.identifier).is_some() {
        return Err(ModelError::DuplicateIdentifier(relation.identifier.clone()));
    }
    if find(&content.spec_types, &relation.spec_type).is_none() {
        return Err(
            ModelError::DanglingReference(EntityKind::SpecType, relation.spec_type.clone()),
        );
    }
    if find(&content.spec_objects, &relation.source).is_none() {
        return Err(ModelError::DanglingReference(EntityKind::SpecObject, relation.source.clone()));
    }
    if find(&content.spec_objects, &relation.target).is_none() {
        return Err(ModelError::DanglingReference(EntityKind::SpecObject, relation.target.clone()));
    }
    check_typed(content, &relation.spec_type, &relation.values)
}

/// Looks for the fault of a specification that is offered to `content`.
pub fn check_specification(content: &CoreContent, specification: &Specification) -> (outcome:
    Result<(), ModelError>)
    ensures
        reports(outcome, specification_fault(*content, *specification)),
{
    proof {
        lemma_position(content.specifications@, specification.identifier@);
    }
    if find(&content.specifications, &specification.identifier).is_some() {
        return Err(ModelError::DuplicateIdentifier(specification.identifier.clone()));
    }
    match check_typed(content, &specification.spec_type, &specification.values) {
        Err(error) => Err(error),
        Ok(_) => {
            let entries = flatten(&specification.children);
            check_listing(&content.spec_objects, &entries)
        },
    }
}

/// Appends to `out` the lines of a listing that stand for the requirement
/// `id`, each as a node of the specification `owner`.
fn collect_entry_referrers(
    owner: &String,
    entries: &Vec<HierarchyEntry>,
    id: &String,
    out: &mut Vec<Referrer>,
)
    ensures
        references(final(out)@) == references(old(out)@) + entry_referrers(
            owner@,
            entries@,
            id@,
        ),
{
    let mut i: usize = 0;
    proof {
        assert(references(out@) + entry_referrers(owner@, entries@.take(0), id@) =~= references(
            out@,
        ));
    }
    while i < entries.len()
        invariant
            i <= entries.len(),
            references(out@) == references(old(out)@) + entry_referrers(
                owner@,
                entries@.take(i as int),
                id@,
            ),
        decreases entries.len() - i,
    {
        let ghost before = out@;
        proof {
            assert(entries@.take(i + 1).drop_last() =~= entries@.take(i as int));
            assert(entries@.take(i + 1).last() == entries@[i as int]);
        }
        if entries[i].object == *id {
            out.push(
                Referrer::Hierarchy { specification: owner.clone(), node: entries[i].node.clone() },
            );
            proof {
                assert(references(out@) =~= references(before).push(
                    Reference::Hierarchy { specification: owner@, node: entries@[i as int].node@ },
                ));
                assert(references(out@) =~= references(old(out)@) + entry_referrers(
                    owner@,
                    entries@.take(i + 1),
                    id@,
                ));
            }
        }
        i = i + 1;
    }
    proof {
        assert(entries@.take(entries.len() as int) =~= entries@);
    }
}

/// Lists everything in `content` that points at the requirement `id`: the
/// relations first, then the hierarchy nodes.
pub fn find_referrers(content: &CoreContent, id: &String) -> (by: Vec<Referrer>)
    ensures
        references(by@) == referrers(*content, id@),
{
    let mut by: Vec<Referrer> = Vec::new();
    let relations = &content.spec_relations;
    let mut i: usize = 0;
    proof {
        assert(references(by@) =~= relation_referrers(relations@.take(0), id@));
    }
    while i < relations.len()
        invariant
            i <= relations.len(),
            references(by@) == relation_referrers(relations@.take(i as int), id@),
        decreases relations.len() - i,
    {
        let ghost before = by@;
        proof {
            assert(relations@.take(i + 1).drop_last() =~= relations@.take(i as int));
            assert(relations@.take(i + 1).last() == relations@[i as int]);
        }
        if relations[i].source == *id || relations[i].target == *id {
            by.push(Referrer::Relation(relations[i].identifier.clone()));
            proof {
                assert(references(by@) =~= references(before).push(
                    Reference::Relation(relations@[i as int].identifier@),
                ));
            }
        }
        i = i + 1;
    }
    proof {
        assert(relations@.take(relations.len() as int) =~= relations@);
    }
    let specifications = &content.specifications;
    let mut k: usize = 0;
    proof {
        assert(references(by@) =~= relation_referrers(relations@, id@) + hierarchy_referrers(
            specifications@.take(0),
            id@,
        ));
    }
    while k < specifications.len()
        invariant
            k <= specifications.len(),
            references(by@) == relation_referrers(relations@, id@) + hierarchy_referrers(
                specifications@.take(k as int),
                id@,
            ),
        decreases specifications.len() - k,
    {
        proof {
            assert(specifications@.take(k + 1).drop_last() =~= specifications@.take(k as int));
            assert(specifications@.take(k + 1).last() == specifications@[k as int]);
        }
        let listing = flatten(&specifications[k].children);
        collect_entry_referrers(&specifications[k].identifier, &listing, id, &mut by);
        proof {
            assert(references(by@) =~= relation_referrers(relations@, id@) + hierarchy_referrers(
                specifications@.take(k + 1),
                id@,
            ));
        }
        k = k + 1;
    }
    proof {
        assert(specifications@.take(specifications.len() as int) =~= specifications@);
    }
    by
}

/// Looks for the fault of asking to remove the requirement `id`.
pub fn check_removal(content: &CoreContent, id: &String) -> (outcome: Result<(), ModelError>)
    ensures
        reports(outcome, removal_fault(*content, id@)),
{
    proof {
        lemma_position(content.spec_objects@, id@);
    }
    if find(&content.spec_objects, id).is_none() {
        return Err(ModelError::DanglingReference(EntityKind::SpecObject, id.clone()));
    }
    let by = find_referrers(content, id);
    if by.len() > 0 {
        Err(ModelError::ReferencedElsewhere(by))
    } else {
        Ok(())
    }
}

/// Whether the datatype is sound in itself.
pub fn is_datatype_sound(datatype: &DatatypeDefinition) -> (answer: bool)
    ensures
        answer == datatype_sound(*datatype),
{
    match datatype {
        DatatypeDefinition::Integer { min: Some(low), max: Some(high), .. } => *low <= *high,
        DatatypeDefinition::Real { min: Some(low), max: Some(high), .. } => low.is_le(*high),
        DatatypeDefinition::Enumeration { values, .. } => {
            proof {
                lemma_first_repeat(values@);
            }
            find_repeat(values).is_none()
        },
        _ => true,
    }
}

/// Whether the spec type declares no attribute identifier twice and refers
/// to known datatypes only.
pub fn is_spec_type_sound(datatypes: &Vec<DatatypeDefinition>, spec_type: &SpecType) -> (answer:
    bool)
    ensures
        answer == spec_type_sound(datatypes@, *spec_type),
{
    proof {
        lemma_attribute_findings_none(datatypes@, spec_type.spec_attributes@);
        lemma_first_repeat(spec_type.spec_attributes@);
    }
    find_repeat(&spec_type.spec_attributes).is_none() && check_attributes(
        datatypes,
        &spec_type.spec_attributes,
    ).is_ok()
}

/// Whether a type reference resolves in `content` and the values are sound
/// against that type.
pub fn is_typed_sound(content: &CoreContent, type_ref: &String, values: &Vec<AttributeValue>) -> (answer:
    bool)
    ensures
        answer == typed_sound(
            content.datatype_definitions@,
            content.spec_types@,
            type_ref@,
            values@,
        ),
{
    proof {
        lemma_typed_fault_none(*content, type_ref@, values@);
    }
    check_typed(content, type_ref, values).is_ok()
}

/// Whether `id` is the identifier of a requirement of `content`.
fn is_known_object(content: &CoreContent, id: &String) -> (answer: bool)
    ensures
        answer == contains_id(content.spec_objects@, id@),
{
    proof {
        lemma_position(content.spec_objects@, id@);
    }
    find(&content.spec_objects, id).is_some()
}

/// Whether every datatype and every spec type of `content` is sound, and
/// neither namespace holds an identifier twice.
fn is_schema_consistent(content: &CoreContent) -> (answer: bool)
    ensures
        answer == {
            &&& distinct_ids(content.datatype_definitions@)
            &&& forall|k: int|
                0 <= k < content.datatype_definitions@.len() ==> datatype_sound(
                    #[trigger] content.datatype_definitions@[k],
                )
            &&& distinct_ids(content.spec_types@)
            &&& forall|k: int|
                0 <= k < content.spec_types@.len() ==> spec_type_sound(
                    content.datatype_definitions@,
                    #[trigger] content.spec_types@[k],
                )
        },
{
    if find_repeat(&content.datatype_definitions).is_some() || find_repeat(
        &content.spec_types,
    ).is_some() {
        proof {
            lemma_first_repeat(content.datatype_definitions@);
            lemma_first_repeat(content.spec_types@);
        }
        return false;
    }
    let mut i: usize = 0;
    while i < content.datatype_definitions.len()
        invariant
            i <= content.datatype_definitions.len(),
            forall|k: int|
                0 <= k < i ==> datatype_sound(#[trigger] content.datatype_definitions@[k]),
        decreases content.datatype_definitions.len() - i,
    {
        if !is_datatype_sound(&content.datatype_definitions[i]) {
            return false;
        }
        i = i + 1;
    }
    let mut j: usize = 0;
    while j < content.spec_types.len()
        invariant
            j <= content.spec_types.len(),
            forall|k: int|
                0 <= k < j ==> spec_type_sound(
                    content.datatype_definitions@,
                    #[trigger] content.spec_types@[k],
                ),
        decreases content.spec_types.len() - j,
    {
        if !is_spec_type_sound(&content.datatype_definitions, &content.spec_types[j]) {
            return false;
        }
        j = j + 1;
    }
    true
}

/// Whether every requirement of `content` is sound, and no two share an
/// identifier.
fn are_objects_consistent(content: &CoreContent) -> (answer: bool)
    ensures
        answer == {
            &&& distinct_ids(content.spec_objects@)
            &&& forall|k: int|
                0 <= k < content.spec_objects@.len() ==> object_sound(
                    content.datatype_definitions@,
                    content.spec_types@,
                    #[trigger] content.spec_objects@[k],
                )
        },
{
    if find_repeat(&content.spec_objects).is_some() {
        proof {
            lemma_first_repeat(content.spec_objects@);
        }
        return false;
    }
    let mut i: usize = 0;
    while i < content.spec_objects.len()
        invariant
            i <= content.spec_objects.len(),
            forall|k: int|
                0 <= k < i ==> object_sound(
                    content.datatype_definitions@,
                    content.spec_types@,
                    #[trigger] content.spec_objects@[k],
                ),
        decreases content.spec_objects.len() - i,
    {
        let object = &content.spec_objects[i];
        if !is_typed_sound(content, &object.spec_type, &object.values) {
            return false;
        }
        i = i + 1;
    }
    true
}

/// Whether every relation of `content` is sound, and no two share an
/// identifier.
fn are_relations_consistent(content: &CoreContent) -> (answer: bool)
    ensures
        answer == {
            &&& distinct_ids(content.spec_relations@)
            &&& forall|k: int|
                0 <= k < content.spec_relations@.len() ==> relation_sound(
                    content.datatype_definitions@,
                    content.spec_types@,
                    content.spec_objects@,
                    #[trigger] content.spec_relations@[k],
                )
        },
{
    if find_repeat(&content.spec_relations).is_some() {
        proof {
            lemma_first_repeat(content.spec_relations@);
        }
        return false;
    }
    let mut i: usize = 0;
    while i < content.spec_relations.len()
        invariant
            i <= content.spec_relations.len(),
            forall|k: int|
                0 <= k < i ==> relation_sound(
                    content.datatype_definitions@,
                    content.spec_types@,
                    content.spec_objects@,
                    #[trigger] content.spec_relations@[k],
                ),
        decreases content.spec_relations.len() - i,
    {
        let relation = &content.spec_relations[i];
        if !is_typed_sound(content, &relation.spec_type, &relation.values) || !is_known_object(
            content,
            &relation.source,
        ) || !is_known_object(content, &relation.target) {
            return false;
        }
        i = i + 1;
    }
    true
}

/// Whether every specification of `content` is sound, and no two share an
/// identifier.
fn are_specifications_consistent(content: &CoreContent) -> (answer: bool)
    ensures
        answer == {
            &&& distinct_ids(content.specifications@)
            &&& forall|k: int|
                0 <= k < content.specifications@.len() ==> specification_sound(
                    content.datatype_definitions@,
                    content.spec_types@,
                    content.spec_objects@,
                    #[trigger] content.specifications@[k],
                )
        },
{
    if find_repeat(&content.specifications).is_some() {
        proof {
            lemma_first_repeat(content.specifications@);
        }
        return false;
    }
    let mut i: usize = 0;
    while i < content.specifications.len()
        invariant
            i <= content.specifications.len(),
            forall|k: int|
                0 <= k < i ==> specification_sound(
                    content.datatype_definitions@,
                    content.spec_types@,
                    content.spec_objects@,
                    #[trigger] content.specifications@[k],
                ),
        decreases content.specifications.len() - i,
    {
        let specification = &content.specifications[i];
        let listing = flatten(&specification.children);
        proof {
            lemma_listing_fault_none(content.spec_objects@, listing@);
        }
        if !is_typed_sound(content, &specification.spec_type, &specification.values)
            || check_listing(&content.spec_objects, &listing).is_err() {
            return false;
        }
        i = i + 1;
    }
    true
}

/// Whether every invariant of a document's content holds of `content`.
pub fn is_consistent(content: &CoreContent) -> (answer: bool)
    ensures
        answer == content_consistent(*content),
{
    is_schema_consistent(content) && are_objects_consistent(content) && are_relations_consistent(
        content,
    ) && are_specifications_consistent(content)
}

} // verus!
