//! Why a document stays consistent: an entity without a fault is sound, and
//! what was sound stays sound when a namespace grows.

use vstd::prelude::*;
use crate::hierarchy::{
    forest_entries,
    lemma_grafted_listing,
    node_entries,
    spliced,
    HierarchyEntry,
};
use crate::ident::{
    contains_id,
    lemma_distinct_push,
    lemma_first_repeat,
    lemma_position_push,
    lookup,
    Identified,
};
use crate::model::{
    AttributeDefinition,
    AttributeValue,
    CoreContent,
    DatatypeDefinition,
    SpecHierarchy,
    SpecObject,
    SpecRelation,
    SpecType,
    Specification,
};
use crate::rules::{
    attribute_findings,
    content_consistent,
    datatype_fault,
    entries_resolve,
    entry_findings,
    first_fault,
    lemma_first_fault_none,
    lemma_hierarchy_referrers,
    lemma_relation_referrers,
    listing_fault,
    listing_sound,
    object_fault,
    object_sound,
    points_at,
    referrers,
    relation_fault,
    relation_sound,
    spec_type_fault,
    spec_type_sound,
    specification_fault,
    specification_grafted,
    specification_sound,
    typed_fault,
    typed_sound,
    value_fault,
    value_findings,
    values_sound,
};
use crate::value::datatype_sound;

verus! {

/// An identifier that occurs keeps occurring when an entity is appended.
pub proof fn lemma_contains_push<T: Identified>(items: Seq<T>, extra: T, id: Seq<char>)
    requires
        contains_id(items, id),
    ensures
        contains_id(items.push(extra), id),
{
    let i = choose|i: int| 0 <= i < items.len() && #[trigger] items[i].id() == id;
    assert(items.push(extra)[i].id() == id);
}

/// A type reference and values have no fault exactly when they are sound.
pub proof fn lemma_typed_fault_none(
    content: CoreContent,
    type_ref: Seq<char>,
    values: Seq<AttributeValue>,
)
    ensures
        typed_fault(content, type_ref, values) is None <==> typed_sound(
            content.datatype_definitions@,
            content.spec_types@,
            type_ref,
            values,
        ),
{
    match lookup(content.spec_types@, type_ref) {
        None => {},
        Some(spec_type) => {
            let findings = value_findings(content.datatype_definitions@, spec_type, values);
            lemma_first_fault_none(findings);
            if first_fault(findings) is None {
                assert forall|k: int| 0 <= k < values.len() implies value_fault(
                    content.datatype_definitions@,
                    spec_type,
                    #[trigger] values[k],
                ) is None by {
                    assert(findings[k] is None);
                }
            } else {
                let k = choose|k: int| 0 <= k < findings.len() && !(findings[k] is None);
                assert(value_fault(content.datatype_definitions@, spec_type, values[k]) is Some);
            }
        },
    }
}

/// A listing has no fault exactly when it is sound.
pub proof fn lemma_listing_fault_none(objects: Seq<SpecObject>, entries: Seq<HierarchyEntry>)
    ensures
        listing_fault(objects, entries) is None <==> listing_sound(objects, entries),
{
    let findings = entry_findings(objects, entries);
    lemma_first_fault_none(findings);
    if first_fault(findings) is None {
        assert forall|k: int| 0 <= k < entries.len() implies contains_id(
            objects,
            (#[trigger] entries[k]).object@,
        ) by {
            assert(findings[k] is None);
        }
    } else {
        let k = choose|k: int| 0 <= k < findings.len() && !(findings[k] is None);
        assert(!contains_id(objects, entries[k].object@));
    }
}

/// Values that are sound stay sound when a datatype is appended.
pub proof fn lemma_values_keep_datatype(
    datatypes: Seq<DatatypeDefinition>,
    extra: DatatypeDefinition,
    spec_type: SpecType,
    values: Seq<AttributeValue>,
)
    requires
        values_sound(datatypes, spec_type, values),
    ensures
        values_sound(datatypes.push(extra), spec_type, values),
{
    assert forall|k: int| 0 <= k < values.len() implies value_fault(
        datatypes.push(extra),
        spec_type,
        #[trigger] values[k],
    ) is None by {
        let value = values[k];
        assert(value_fault(datatypes, spec_type, value) is None);
        let definition = lookup(spec_type.spec_attributes@, value.slot())->0;
        lemma_position_push(datatypes, extra, definition.datatype_ref@);
    }
}

/// A type reference and values that are sound stay sound when a datatype is
/// appended.
pub proof fn lemma_typed_keeps_datatype(
    datatypes: Seq<DatatypeDefinition>,
    extra: DatatypeDefinition,
    spec_types: Seq<SpecType>,
    type_ref: Seq<char>,
    values: Seq<AttributeValue>,
)
    requires
        typed_sound(datatypes, spec_types, type_ref, values),
    ensures
        typed_sound(datatypes.push(extra), spec_types, type_ref, values),
{
    let spec_type = lookup(spec_types, type_ref)->0;
    lemma_values_keep_datatype(datatypes, extra, spec_type, values);
}

/// A type reference and values that are sound stay sound when a spec type is
/// appended.
pub proof fn lemma_typed_keeps_type(
    datatypes: Seq<DatatypeDefinition>,
    spec_types: Seq<SpecType>,
    extra: SpecType,
    type_ref: Seq<char>,
    values: Seq<AttributeValue>,
)
    requires
        typed_sound(datatypes, spec_types, type_ref, values),
    ensures
        typed_sound(datatypes, spec_types.push(extra), type_ref, values),
{
    lemma_position_push(spec_types, extra, type_ref);
}

/// A spec type that is sound stays sound when a datatype is appended.
pub proof fn lemma_type_keeps_datatype(
    datatypes: Seq<DatatypeDefinition>,
    extra: DatatypeDefinition,
    spec_type: SpecType,
)
    requires
        spec_type_sound(datatypes, spec_type),
    ensures
        spec_type_sound(datatypes.push(extra), spec_type),
{
    assert forall|k: int| 0 <= k < spec_type.spec_attributes@.len() implies contains_id(
        datatypes.push(extra),
        (#[trigger] spec_type.spec_attributes@[k]).datatype_ref@,
    ) by {
        lemma_contains_push(datatypes, extra, spec_type.spec_attributes@[k].datatype_ref@);
    }
}

/// A listing whose lines resolve keeps resolving when a requirement is
/// appended.
pub proof fn lemma_entries_keep_object(
    objects: Seq<SpecObject>,
    extra: SpecObject,
    entries: Seq<HierarchyEntry>,
)
    requires
        entries_resolve(objects, entries),
    ensures
        entries_resolve(objects.push(extra), entries),
{
    assert forall|k: int| 0 <= k < entries.len() implies contains_id(
        objects.push(extra),
        (#[trigger] entries[k]).object@,
    ) by {
        lemma_contains_push(objects, extra, entries[k].object@);
    }
}

/// No attribute definition has a finding exactly when the datatype of each
/// is known.
pub proof fn lemma_attribute_findings_none(
    datatypes: Seq<DatatypeDefinition>,
    definitions: Seq<AttributeDefinition>,
)
    ensures
        first_fault(attribute_findings(datatypes, definitions)) is None <==> forall|k: int|
            0 <= k < definitions.len() ==> contains_id(
                datatypes,
                (#[trigger] definitions[k]).datatype_ref@,
            ),
{
    let findings = attribute_findings(datatypes, definitions);
    lemma_first_fault_none(findings);
    if first_fault(findings) is None {
        assert forall|k: int| 0 <= k < definitions.len() implies contains_id(
            datatypes,
            (#[trigger] definitions[k]).datatype_ref@,
        ) by {
            assert(findings[k] is None);
        }
    } else {
        let k = choose|k: int| 0 <= k < findings.len() && !(findings[k] is None);
        assert(!contains_id(datatypes, definitions[k].datatype_ref@));
    }
}

/// A datatype without a fault is new and sound.
pub proof fn lemma_datatype_fault_none(content: CoreContent, datatype: DatatypeDefinition)
    requires
        datatype_fault(content, datatype) is None,
    ensures
        !contains_id(content.datatype_definitions@, datatype.id()),
        datatype_sound(datatype),
{
    match datatype {
        DatatypeDefinition::Enumeration { values, .. } => {
            lemma_first_repeat(values@);
        },
        _ => {},
    }
}

/// A spec type without a fault is new and sound.
pub proof fn lemma_spec_type_fault_none(content: CoreContent, spec_type: SpecType)
    requires
        spec_type_fault(content, spec_type) is None,
    ensures
        !contains_id(content.spec_types@, spec_type.id()),
        spec_type_sound(content.datatype_definitions@, spec_type),
{
    let definitions = spec_type.spec_attributes@;
    lemma_first_repeat(definitions);
    let findings = attribute_findings(content.datatype_definitions@, definitions);
    lemma_first_fault_none(findings);
    assert forall|k: int| 0 <= k < definitions.len() implies contains_id(
        content.datatype_definitions@,
        (#[trigger] definitions[k]).datatype_ref@,
    ) by {
        assert(findings[k] is None);
    }
}

/// A consistent content with one more datatype that has no fault is
/// consistent.
pub proof fn lemma_consistent_with_datatype(
    before: CoreContent,
    after: CoreContent,
    extra: DatatypeDefinition,
)
    requires
        content_consistent(before),
        datatype_fault(before, extra) is None,
        after.datatype_definitions@ == before.datatype_definitions@.push(extra),
        after.spec_types@ == before.spec_types@,
        after.spec_objects@ == before.spec_objects@,
        after.spec_relations@ == before.spec_relations@,
        after.specifications@ == before.specifications@,
    ensures
        content_consistent(after),
{
    let datatypes = before.datatype_definitions@;
    let types = before.spec_types@;
    lemma_datatype_fault_none(before, extra);
    lemma_distinct_push(datatypes, extra);
    assert forall|k: int| 0 <= k < after.datatype_definitions@.len() implies datatype_sound(
        #[trigger] after.datatype_definitions@[k],
    ) by {
        if k < datatypes.len() {
            assert(datatype_sound(datatypes[k]));
        }
    }
    assert forall|k: int| 0 <= k < after.spec_types@.len() implies spec_type_sound(
        after.datatype_definitions@,
        #[trigger] after.spec_types@[k],
    ) by {
        lemma_type_keeps_datatype(datatypes, extra, types[k]);
    }
    assert forall|k: int| 0 <= k < after.spec_objects@.len() implies object_sound(
        after.datatype_definitions@,
        after.spec_types@,
        #[trigger] after.spec_objects@[k],
    ) by {
        let object = before.spec_objects@[k];
        assert(object_sound(datatypes, types, object));
        lemma_typed_keeps_datatype(datatypes, extra, types, object.spec_type@, object.values@);
    }
    assert forall|k: int| 0 <= k < after.spec_relations@.len() implies relation_sound(
        after.datatype_definitions@,
        after.spec_types@,
        after.spec_objects@,
        #[trigger] after.spec_relations@[k],
    ) by {
        let relation = before.spec_relations@[k];
        assert(relation_sound(datatypes, types, before.spec_objects@, relation));
        lemma_typed_keeps_datatype(datatypes, extra, types, relation.spec_type@, relation.values@);
    }
    assert forall|k: int| 0 <= k < after.specifications@.len() implies specification_sound(
        after.datatype_definitions@,
        after.spec_types@,
        after.spec_objects@,
        #[trigger] after.specifications@[k],
    ) by {
        let specification = before.specifications@[k];
        assert(specification_sound(datatypes, types, before.spec_objects@, specification));
        lemma_typed_keeps_datatype(
            datatypes,
            extra,
            types,
            specification.spec_type@,
            specification.values@,
        );
    }
}

/// A consistent content with one more spec type that has no fault is
/// consistent.
pub proof fn lemma_consistent_with_spec_type(
    before: CoreContent,
    after: CoreContent,
    extra: SpecType,
)
    requires
        content_consistent(before),
        spec_type_fault(before, extra) is None,
        after.datatype_definitions@ == before.datatype_definitions@,
        after.spec_types@ == before.spec_types@.push(extra),
        after.spec_objects@ == before.spec_objects@,
        after.spec_relations@ == before.spec_relations@,
        after.specifications@ == before.specifications@,
    ensures
        content_consistent(after),
{
    let datatypes = before.datatype_definitions@;
    let types = before.spec_types@;
    lemma_spec_type_fault_none(before, extra);
    lemma_distinct_push(types, extra);
    assert forall|k: int| 0 <= k < after.spec_types@.len() implies spec_type_sound(
        after.datatype_definitions@,
        #[trigger] after.spec_types@[k],
    ) by {
        if k < types.len() {
            assert(spec_type_sound(datatypes, types[k]));
        }
    }
    assert forall|k: int| 0 <= k < after.spec_objects@.len() implies object_sound(
        after.datatype_definitions@,
        after.spec_types@,
        #[trigger] after.spec_objects@[k],
    ) by {
        let object = before.spec_objects@[k];
        assert(object_sound(datatypes, types, object));
        lemma_typed_keeps_type(datatypes, types, extra, object.spec_type@, object.values@);
    }
    assert forall|k: int| 0 <= k < after.spec_relations@.len() implies relation_sound(
        after.datatype_definitions@,
        after.spec_types@,
        after.spec_objects@,
        #[trigger] after.spec_relations@[k],
    ) by {
        let relation = before.spec_relations@[k];
        assert(relation_sound(datatypes, types, before.spec_objects@, relation));
        lemma_typed_keeps_type(datatypes, types, extra, relation.spec_type@, relation.values@);
    }
    assert forall|k: int| 0 <= k < after.specifications@.len() implies specification_sound(
        after.datatype_definitions@,
        after.spec_types@,
        after.spec_objects@,
        #[trigger] after.specifications@[k],
    ) by {
        let specification = before.specifications@[k];
        assert(specification_sound(datatypes, types, before.spec_objects@, specification));
        lemma_typed_keeps_type(
            datatypes,
            types,
            extra,
            specification.spec_type@,
            specification.values@,
        );
    }
}

/// A consistent content with one more requirement that has no fault is
/// consistent.
pub proof fn lemma_consistent_with_object(
    before: CoreContent,
    after: CoreContent,
    extra: SpecObject,
)
    requires
        content_consistent(before),
        object_fault(before, extra) is None,
        after.datatype_definitions@ == before.datatype_definitions@,
        after.spec_types@ == before.spec_types@,
        after.spec_objects@ == before.spec_objects@.push(extra),
        after.spec_relations@ == before.spec_relations@,
        after.specifications@ == before.specifications@,
    ensures
        content_consistent(after),
{
    let datatypes = before.datatype_definitions@;
    let types = before.spec_types@;
    let objects = before.spec_objects@;
    lemma_typed_fault_none(before, extra.spec_type@, extra.values@);
    lemma_distinct_push(objects, extra);
    assert forall|k: int| 0 <= k < after.spec_objects@.len() implies object_sound(
        after.datatype_definitions@,
        after.spec_types@,
        #[trigger] after.spec_objects@[k],
    ) by {
        if k < objects.len() {
            assert(object_sound(datatypes, types, objects[k]));
        }
    }
    assert forall|k: int| 0 <= k < after.spec_relations@.len() implies relation_sound(
        after.datatype_definitions@,
        after.spec_types@,
        after.spec_objects@,
        #[trigger] after.spec_relations@[k],
    ) by {
        let relation = before.spec_relations@[k];
        assert(relation_sound(datatypes, types, objects, relation));
        lemma_contains_push(objects, extra, relation.source@);
        lemma_contains_push(objects, extra, relation.target@);
    }
    assert forall|k: int| 0 <= k < after.specifications@.len() implies specification_sound(
        after.datatype_definitions@,
        after.spec_types@,
        after.spec_objects@,
        #[trigger] after.specifications@[k],
    ) by {
        let specification = before.specifications@[k];
        assert(specification_sound(datatypes, types, objects, specification));
        lemma_entries_keep_object(objects, extra, forest_entries(specification.children@));
    }
}

/// A consistent content with one more relation that has no fault is
/// consistent.
pub proof fn lemma_consistent_with_relation(
    before: CoreContent,
    after: CoreContent,
    extra: SpecRelation,
)
    requires
        content_consistent(before),
        relation_fault(before, extra) is None,
        after.datatype_definitions@ == before.datatype_definitions@,
        after.spec_types@ == before.spec_types@,
        after.spec_objects@ == before.spec_objects@,
        after.spec_relations@ == before.spec_relations@.push(extra),
        after.specifications@ == before.specifications@,
    ensures
        content_consistent(after),
{
    let relations = before.spec_relations@;
    lemma_typed_fault_none(before, extra.spec_type@, extra.values@);
    lemma_distinct_push(relations, extra);
    assert forall|k: int| 0 <= k < after.spec_relations@.len() implies relation_sound(
        after.datatype_definitions@,
        after.spec_types@,
        after.spec_objects@,
        #[trigger] after.spec_relations@[k],
    ) by {
        if k < relations.len() {
            assert(relation_sound(
                before.datatype_definitions@,
                before.spec_types@,
                before.spec_objects@,
                relations[k],
            ));
        }
    }
}

/// A consistent content with one more specification that has no fault is
/// consistent.
pub proof fn lemma_consistent_with_specification(
    before: CoreContent,
    after: CoreContent,
    extra: Specification,
)
    requires
        content_consistent(before),
        specification_fault(before, extra) is None,
        after.datatype_definitions@ == before.datatype_definitions@,
        after.spec_types@ == before.spec_types@,
        after.spec_objects@ == before.spec_objects@,
        after.spec_relations@ == before.spec_relations@,
        after.specifications@ == before.specifications@.push(extra),
    ensures
        content_consistent(after),
{
    let specifications = before.specifications@;
    lemma_typed_fault_none(before, extra.spec_type@, extra.values@);
    lemma_listing_fault_none(before.spec_objects@, forest_entries(extra.children@));
    lemma_distinct_push(specifications, extra);
    assert forall|k: int| 0 <= k < after.specifications@.len() implies specification_sound(
        after.datatype_definitions@,
        after.spec_types@,
        after.spec_objects@,
        #[trigger] after.specifications@[k],
    ) by {
        if k < specifications.len() {
            assert(specification_sound(
                before.datatype_definitions@,
                before.spec_types@,
                before.spec_objects@,
                specifications[k],
            ));
        }
    }
}

/// A listing that is sound with a part at its end is sound with that part
/// put in at any line.
pub proof fn lemma_spliced_sound(
    objects: Seq<SpecObject>,
    listing: Seq<HierarchyEntry>,
    at: int,
    part: Seq<HierarchyEntry>,
)
    requires
        0 <= at <= listing.len(),
        listing_sound(objects, listing + part),
    ensures
        listing_sound(objects, spliced(listing, at, part)),
{
    let whole = listing + part;
    let mixed = spliced(listing, at, part);
    let origin = |m: int|
        if m < at {
            m
        } else if m < at + part.len() {
            listing.len() + (m - at)
        } else {
            m - part.len()
        };
    assert forall|m: int| 0 <= m < mixed.len() implies 0 <= origin(m) < whole.len() && mixed[m]
        == whole[origin(m)] by {}
    assert forall|a: int, b: int| 0 <= a < b < mixed.len() implies #[trigger] mixed[a].id()
        != #[trigger] mixed[b].id() by {
        let x = origin(a);
        let y = origin(b);
        assert(mixed[a] == whole[x] && mixed[b] == whole[y]);
        if x < y {
            assert(whole[x].id() != whole[y].id());
        } else {
            assert(y < x);
            assert(whole[y].id() != whole[x].id());
        }
    }
    assert forall|m: int| 0 <= m < mixed.len() implies contains_id(
        objects,
        (#[trigger] mixed[m]).object@,
    ) by {
        assert(mixed[m] == whole[origin(m)]);
        assert(contains_id(objects, whole[origin(m)].object@));
    }
}

/// A consistent content in which one specification got a node grafted onto
/// its hierarchy, the listing of both together having no fault, is
/// consistent.
pub proof fn lemma_consistent_with_graft(
    before: CoreContent,
    after: CoreContent,
    k: int,
    parent: Option<Seq<char>>,
    node: SpecHierarchy,
)
    requires
        content_consistent(before),
        0 <= k < before.specifications@.len(),
        listing_fault(
            before.spec_objects@,
            forest_entries(before.specifications@[k].children@) + node_entries(node),
        ) is None,
        after.datatype_definitions@ == before.datatype_definitions@,
        after.spec_types@ == before.spec_types@,
        after.spec_objects@ == before.spec_objects@,
        after.spec_relations@ == before.spec_relations@,
        after.specifications@.len() == before.specifications@.len(),
        forall|j: int|
            0 <= j < before.specifications@.len() && j != k ==> after.specifications@[j]
                == before.specifications@[j],
        specification_grafted(before.specifications@[k], after.specifications@[k], parent, node),
    ensures
        content_consistent(after),
{
    let old_specs = before.specifications@;
    let new_specs = after.specifications@;
    let objects = before.spec_objects@;
    assert forall|j: int| 0 <= j < new_specs.len() implies (#[trigger] new_specs[j]).id()
        == old_specs[j].id() by {}
    assert forall|i: int, j: int| 0 <= i < j < new_specs.len() implies #[trigger] new_specs[i].id()
        != #[trigger] new_specs[j].id() by {
        assert(old_specs[i].id() != old_specs[j].id());
        assert(new_specs[i].id() == old_specs[i].id());
        assert(new_specs[j].id() == old_specs[j].id());
    }
    assert forall|j: int| 0 <= j < new_specs.len() implies specification_sound(
        after.datatype_definitions@,
        after.spec_types@,
        after.spec_objects@,
        #[trigger] new_specs[j],
    ) by {
        assert(specification_sound(
            before.datatype_definitions@,
            before.spec_types@,
            objects,
            old_specs[j],
        ));
        if j == k {
            let listing = forest_entries(old_specs[k].children@);
            let part = node_entries(node);
            lemma_listing_fault_none(objects, listing + part);
            let at = lemma_grafted_listing(
                old_specs[k].children@,
                new_specs[k].children@,
                parent,
                node,
            );
            lemma_spliced_sound(objects, listing, at, part);
        }
    }
}

/// An identifier that occurs keeps occurring when an entity with another
/// identifier is taken out.
pub proof fn lemma_contains_after_remove<T: Identified>(items: Seq<T>, k: int, id: Seq<char>)
    requires
        0 <= k < items.len(),
        contains_id(items, id),
        items[k].id() != id,
    ensures
        contains_id(items.remove(k), id),
{
    let w = choose|w: int| 0 <= w < items.len() && #[trigger] items[w].id() == id;
    let rest = items.remove(k);
    if w < k {
        assert(rest[w].id() == id);
    } else {
        assert(rest[w - 1].id() == id);
    }
}

/// A consistent content without one requirement that nothing points at is
/// consistent.
pub proof fn lemma_consistent_without_object(before: CoreContent, after: CoreContent, k: int)
    requires
        content_consistent(before),
        0 <= k < before.spec_objects@.len(),
        referrers(before, before.spec_objects@[k].id()).len() == 0,
        after.datatype_definitions@ == before.datatype_definitions@,
        after.spec_types@ == before.spec_types@,
        after.spec_objects@ == before.spec_objects@.remove(k),
        after.spec_relations@ == before.spec_relations@,
        after.specifications@ == before.specifications@,
    ensures
        content_consistent(after),
{
    let objects = before.spec_objects@;
    let rest = after.spec_objects@;
    let id = objects[k].id();
    lemma_relation_referrers(before.spec_relations@, id);
    lemma_hierarchy_referrers(before.specifications@, id);
    assert forall|j: int| 0 <= j < rest.len() implies #[trigger] rest[j] == objects[if j < k {
        j
    } else {
        j + 1
    }] by {}
    assert forall|i: int, j: int| 0 <= i < j < rest.len() implies #[trigger] rest[i].id()
        != #[trigger] rest[j].id() by {
        let x = if i < k {
            i
        } else {
            i + 1
        };
        let y = if j < k {
            j
        } else {
            j + 1
        };
        assert(objects[x].id() != objects[y].id());
    }
    assert forall|j: int| 0 <= j < rest.len() implies object_sound(
        after.datatype_definitions@,
        after.spec_types@,
        #[trigger] rest[j],
    ) by {
        let x = if j < k {
            j
        } else {
            j + 1
        };
        assert(object_sound(before.datatype_definitions@, before.spec_types@, objects[x]));
    }
    assert forall|j: int| 0 <= j < after.spec_relations@.len() implies relation_sound(
        after.datatype_definitions@,
        after.spec_types@,
        after.spec_objects@,
        #[trigger] after.spec_relations@[j],
    ) by {
        let relation = before.spec_relations@[j];
        assert(relation_sound(
            before.datatype_definitions@,
            before.spec_types@,
            objects,
            relation,
        ));
        assert(!points_at(relation, id));
        lemma_contains_after_remove(objects, k, relation.source@);
        lemma_contains_after_remove(objects, k, relation.target@);
    }
    assert forall|j: int| 0 <= j < after.specifications@.len() implies specification_sound(
        after.datatype_definitions@,
        after.spec_types@,
        after.spec_objects@,
        #[trigger] after.specifications@[j],
    ) by {
        let specification = before.specifications@[j];
        let listing = forest_entries(specification.children@);
        assert(specification_sound(
            before.datatype_definitions@,
            before.spec_types@,
            objects,
            specification,
        ));
        assert forall|m: int| 0 <= m < listing.len() implies contains_id(
            rest,
            (#[trigger] listing[m]).object@,
        ) by {
            assert(forest_entries(before.specifications@[j].children@)[m].object@ != id);
            lemma_contains_after_remove(objects, k, listing[m].object@);
        }
    }
}

/// An identifier that occurs keeps occurring when an entity gives way to
/// another with the same identifier.
pub proof fn lemma_contains_after_update<T: Identified>(
    items: Seq<T>,
    k: int,
    fresh: T,
    id: Seq<char>,
)
    requires
        0 <= k < items.len(),
        fresh.id() == items[k].id(),
        contains_id(items, id),
    ensures
        contains_id(items.update(k, fresh), id),
{
    let w = choose|w: int| 0 <= w < items.len() && #[trigger] items[w].id() == id;
    assert(items.update(k, fresh)[w].id() == id);
}

/// A consistent content in which a requirement gave way to one with the
/// same identifier, sound type and sound values, is consistent.
pub proof fn lemma_consistent_with_replacement(
    before: CoreContent,
    after: CoreContent,
    k: int,
    fresh: SpecObject,
)
    requires
        content_consistent(before),
        0 <= k < before.spec_objects@.len(),
        fresh.id() == before.spec_objects@[k].id(),
        typed_fault(before, fresh.spec_type@, fresh.values@) is None,
        after.datatype_definitions@ == before.datatype_definitions@,
        after.spec_types@ == before.spec_types@,
        after.spec_objects@ == before.spec_objects@.update(k, fresh),
        after.spec_relations@ == before.spec_relations@,
        after.specifications@ == before.specifications@,
    ensures
        content_consistent(after),
{
    let objects = before.spec_objects@;
    let changed = after.spec_objects@;
    lemma_typed_fault_none(before, fresh.spec_type@, fresh.values@);
    assert forall|j: int| 0 <= j < changed.len() implies (#[trigger] changed[j]).id()
        == objects[j].id() by {}
    assert forall|i: int, j: int| 0 <= i < j < changed.len() implies #[trigger] changed[i].id()
        != #[trigger] changed[j].id() by {
        assert(objects[i].id() != objects[j].id());
        assert(changed[i].id() == objects[i].id());
        assert(changed[j].id() == objects[j].id());
    }
    assert forall|j: int| 0 <= j < changed.len() implies object_sound(
        after.datatype_definitions@,
        after.spec_types@,
        #[trigger] changed[j],
    ) by {
        if j != k {
            assert(object_sound(before.datatype_definitions@, before.spec_types@, objects[j]));
        }
    }
    assert forall|j: int| 0 <= j < after.spec_relations@.len() implies relation_sound(
        after.datatype_definitions@,
        after.spec_types@,
        after.spec_objects@,
        #[trigger] after.spec_relations@[j],
    ) by {
        let relation = before.spec_relations@[j];
        assert(relation_sound(
            before.datatype_definitions@,
            before.spec_types@,
            objects,
            relation,
        ));
        lemma_contains_after_update(objects, k, fresh, relation.source@);
        lemma_contains_after_update(objects, k, fresh, relation.target@);
    }
    assert forall|j: int| 0 <= j < after.specifications@.len() implies specification_sound(
        after.datatype_definitions@,
        after.spec_types@,
        after.spec_objects@,
        #[trigger] after.specifications@[j],
    ) by {
        let specification = before.specifications@[j];
        let listing = forest_entries(specification.children@);
        assert(specification_sound(
            before.datatype_definitions@,
            before.spec_types@,
            objects,
            specification,
        ));
        assert forall|m: int| 0 <= m < listing.len() implies contains_id(
            changed,
            (#[trigger] listing[m]).object@,
        ) by {
            lemma_contains_after_update(objects, k, fresh, listing[m].object@);
        }
    }
}

} // verus!
