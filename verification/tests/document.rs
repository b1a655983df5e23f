use reqsmith::document::ReqIF;
use reqsmith::error::{EntityKind, ModelError, Referrer};
use reqsmith::hierarchy::{flatten, flatten_node, HierarchyEntry};
use reqsmith::ident::{find, find_repeat};
use reqsmith::model::{
    AttributeDefinition, AttributeValue, DatatypeDefinition, EnumValue, ReqIFHeader, SpecHierarchy,
    SpecObject, SpecRelation, SpecType, Specification, ToolExtension,
};
use reqsmith::preserved::PreservedContent;

fn s(text: &str) -> String {
    text.to_string()
}

fn header(identifier: &str) -> ReqIFHeader {
    ReqIFHeader {
        identifier: s(identifier),
        creation_time: s("2024-01-01T00:00:00Z"),
        source_tool_id: s("reqsmith"),
        title: Some(s("Title")),
        comment: None,
    }
}

fn status_type() -> DatatypeDefinition {
    DatatypeDefinition::Enumeration {
        identifier: s("dt-1"),
        long_name: None,
        values: vec![
            EnumValue { identifier: s("ev-open"), long_name: None, properties: None },
            EnumValue { identifier: s("ev-closed"), long_name: None, properties: None },
        ],
    }
}

fn attribute(identifier: &str, datatype_ref: &str) -> AttributeDefinition {
    AttributeDefinition {
        identifier: s(identifier),
        long_name: None,
        datatype_ref: s(datatype_ref),
        last_change: None,
    }
}

fn spec_type(identifier: &str, spec_attributes: Vec<AttributeDefinition>) -> SpecType {
    SpecType {
        identifier: s(identifier),
        long_name: None,
        description: None,
        last_change: None,
        spec_attributes,
    }
}

fn object(identifier: &str, spec_type: &str, values: Vec<AttributeValue>) -> SpecObject {
    SpecObject {
        identifier: s(identifier),
        spec_type: s(spec_type),
        last_change: None,
        values,
        extra_attrs: PreservedContent::new(),
    }
}

fn relation(identifier: &str, source: &str, target: &str) -> SpecRelation {
    SpecRelation {
        identifier: s(identifier),
        spec_type: s("st-1"),
        source: s(source),
        target: s(target),
        last_change: None,
        values: vec![],
    }
}

fn node(identifier: &str, object: &str, children: Vec<SpecHierarchy>) -> SpecHierarchy {
    SpecHierarchy { identifier: s(identifier), object: s(object), last_change: None, children }
}

fn specification(identifier: &str, children: Vec<SpecHierarchy>) -> Specification {
    Specification {
        identifier: s(identifier),
        spec_type: s("st-1"),
        last_change: None,
        values: vec![],
        children,
    }
}

fn choice(definition: &str, value: &str) -> AttributeValue {
    AttributeValue::Enumeration { definition: s(definition), value: s(value) }
}

fn entry(node: &str, object: &str) -> HierarchyEntry {
    HierarchyEntry { node: s(node), object: s(object) }
}

/// A document with one enumeration datatype, one integer datatype bounded by
/// 0 and 100, one string datatype of at most 5 characters, one spec type
/// that declares a slot for each, and the requirements REQ-1, REQ-2, REQ-3.
fn populated() -> ReqIF {
    let mut document = ReqIF::new(header("doc-1")).unwrap();
    document.add_datatype(status_type()).unwrap();
    document
        .add_datatype(DatatypeDefinition::Integer {
            identifier: s("dt-int"),
            long_name: None,
            min: Some(0),
            max: Some(100),
        })
        .unwrap();
    document
        .add_datatype(DatatypeDefinition::String {
            identifier: s("dt-str"),
            long_name: None,
            max_length: Some(5),
        })
        .unwrap();
    document
        .add_spec_type(spec_type(
            "st-1",
            vec![
                attribute("ad-1", "dt-1"),
                attribute("ad-int", "dt-int"),
                attribute("ad-str", "dt-str"),
            ],
        ))
        .unwrap();
    document.add_spec_object(object("REQ-1", "st-1", vec![choice("ad-1", "ev-open")])).unwrap();
    document.add_spec_object(object("REQ-2", "st-1", vec![])).unwrap();
    document.add_spec_object(object("REQ-3", "st-1", vec![])).unwrap();
    document
}

fn snapshot(document: &ReqIF) -> String {
    format!("{:?}", document)
}

#[test]
fn test_spec_object_creation() {
    let spec_obj = SpecObject {
        identifier: "REQ-001".to_string(),
        spec_type: "requirement-type".to_string(),
        last_change: None,
        values: vec![],
        extra_attrs: PreservedContent::new(),
    };
    assert_eq!(spec_obj.identifier, "REQ-001");
}

#[test]
fn a_header_without_identifier_makes_no_document() {
    assert!(ReqIF::new(header("")).is_none());
    let document = ReqIF::new(header("doc-1")).unwrap();
    assert_eq!(document.header().identifier, "doc-1");
    assert_eq!(document.header().title, Some(s("Title")));
    assert!(document.core_content().spec_objects.is_empty());
    assert!(document.core_content().spec_relations.is_empty());
    assert!(document.core_content().specifications.is_empty());
    assert!(document.core_content().spec_types.is_empty());
    assert!(document.core_content().datatype_definitions.is_empty());
    assert!(document.tool_extensions().is_empty());
}

#[test]
fn enumeration_value_builds_and_a_missing_value_is_refused() {
    let mut document = ReqIF::new(header("doc-1")).unwrap();
    assert_eq!(document.add_datatype(status_type()), Ok(()));
    assert_eq!(document.add_spec_type(spec_type("st-1", vec![attribute("ad-1", "dt-1")])), Ok(()));
    assert_eq!(
        document.add_spec_object(object("REQ-1", "st-1", vec![choice("ad-1", "ev-open")])),
        Ok(())
    );
    assert_eq!(document.core_content().spec_objects.len(), 1);
    assert_eq!(document.resolve_spec_object(&s("REQ-1")).unwrap().spec_type, "st-1");

    let mut other = ReqIF::new(header("doc-2")).unwrap();
    other.add_datatype(status_type()).unwrap();
    other.add_spec_type(spec_type("st-1", vec![attribute("ad-1", "dt-1")])).unwrap();
    let before = snapshot(&other);
    assert_eq!(
        other.add_spec_object(object("REQ-1", "st-1", vec![choice("ad-1", "ev-missing")])),
        Err(ModelError::UnknownEnumValue)
    );
    assert_eq!(snapshot(&other), before);
    assert!(other.core_content().spec_objects.is_empty());
}

#[test]
fn every_reference_of_a_stored_requirement_resolves() {
    let document = populated();
    for stored in document.core_content().spec_objects.iter() {
        let owner = document.resolve_spec_type(&stored.spec_type).unwrap();
        for value in stored.values.iter() {
            let definition =
                document.resolve_attribute_definition(&stored.spec_type, value.definition()).unwrap();
            assert!(owner.spec_attributes.iter().any(|a| a.identifier == definition.identifier));
            assert!(document.resolve_datatype(&definition.datatype_ref).is_some());
        }
    }
}

#[test]
fn datatype_faults() {
    let mut document = populated();
    let before = snapshot(&document);
    assert_eq!(
        document.add_datatype(status_type()),
        Err(ModelError::DuplicateIdentifier(s("dt-1")))
    );
    assert_eq!(
        document.add_datatype(DatatypeDefinition::Boolean { identifier: s("dt-int"), long_name: None }),
        Err(ModelError::DuplicateIdentifier(s("dt-int")))
    );
    assert_eq!(
        document.add_datatype(DatatypeDefinition::Integer {
            identifier: s("dt-bad"),
            long_name: None,
            min: Some(5),
            max: Some(4),
        }),
        Err(ModelError::OutOfRange)
    );
    assert_eq!(
        document.add_datatype(DatatypeDefinition::Real {
            identifier: s("dt-bad"),
            long_name: None,
            min: Some(reqsmith::binary64::Binary64::from_bits(2.0f64.to_bits())),
            max: Some(reqsmith::binary64::Binary64::from_bits(1.0f64.to_bits())),
            accuracy: None,
        }),
        Err(ModelError::OutOfRange)
    );
    assert_eq!(
        document.add_datatype(DatatypeDefinition::Enumeration {
            identifier: s("dt-bad"),
            long_name: None,
            values: vec![
                EnumValue { identifier: s("a"), long_name: None, properties: None },
                EnumValue { identifier: s("b"), long_name: None, properties: None },
                EnumValue { identifier: s("c"), long_name: None, properties: None },
                EnumValue { identifier: s("b"), long_name: None, properties: None },
                EnumValue { identifier: s("a"), long_name: None, properties: None },
            ],
        }),
        Err(ModelError::DuplicateIdentifier(s("b")))
    );
    assert_eq!(snapshot(&document), before);
    assert_eq!(
        document.add_datatype(DatatypeDefinition::Integer {
            identifier: s("dt-point"),
            long_name: None,
            min: Some(5),
            max: Some(5),
        }),
        Ok(())
    );
    assert_eq!(document.core_content().datatype_definitions.len(), 4);
}

#[test]
fn spec_type_faults() {
    let mut document = populated();
    let before = snapshot(&document);
    assert_eq!(
        document.add_spec_type(spec_type("st-1", vec![])),
        Err(ModelError::DuplicateIdentifier(s("st-1")))
    );
    assert_eq!(
        document.add_spec_type(spec_type(
            "st-2",
            vec![attribute("x", "dt-1"), attribute("y", "dt-1"), attribute("x", "dt-nowhere")]
        )),
        Err(ModelError::DuplicateIdentifier(s("x")))
    );
    assert_eq!(
        document.add_spec_type(spec_type(
            "st-2",
            vec![attribute("x", "dt-1"), attribute("y", "dt-nowhere"), attribute("z", "dt-gone")]
        )),
        Err(ModelError::DanglingReference(EntityKind::DatatypeDefinition, s("dt-nowhere")))
    );
    assert_eq!(snapshot(&document), before);
    assert_eq!(document.add_spec_type(spec_type("st-2", vec![attribute("ad-1", "dt-int")])), Ok(()));
    assert_eq!(
        document.resolve_attribute_definition(&s("st-2"), &s("ad-1")).unwrap().datatype_ref,
        "dt-int"
    );
    assert_eq!(
        document.resolve_attribute_definition(&s("st-1"), &s("ad-1")).unwrap().datatype_ref,
        "dt-1"
    );
    assert!(document.resolve_attribute_definition(&s("st-2"), &s("ad-int")).is_none());
    assert!(document.resolve_attribute_definition(&s("st-9"), &s("ad-1")).is_none());
}

#[test]
fn requirement_faults() {
    let mut document = populated();
    let before = snapshot(&document);
    assert_eq!(
        document.add_spec_object(object("REQ-2", "st-1", vec![])),
        Err(ModelError::DuplicateIdentifier(s("REQ-2")))
    );
    assert_eq!(
        document.add_spec_object(object("REQ-9", "st-none", vec![])),
        Err(ModelError::DanglingReference(EntityKind::SpecType, s("st-none")))
    );
    assert_eq!(
        document.add_spec_object(object("REQ-9", "st-1", vec![choice("ad-none", "ev-open")])),
        Err(ModelError::DanglingReference(EntityKind::AttributeDefinition, s("ad-none")))
    );
    assert_eq!(
        document.add_spec_object(object(
            "REQ-9",
            "st-1",
            vec![AttributeValue::Integer { definition: s("ad-str"), value: 3 }]
        )),
        Err(ModelError::KindMismatch)
    );
    assert_eq!(
        document.add_spec_object(object(
            "REQ-9",
            "st-1",
            vec![AttributeValue::Integer { definition: s("ad-int"), value: 150 }]
        )),
        Err(ModelError::OutOfRange)
    );
    assert_eq!(
        document.add_spec_object(object(
            "REQ-9",
            "st-1",
            vec![AttributeValue::String { definition: s("ad-str"), value: s("too long") }]
        )),
        Err(ModelError::LengthExceeded)
    );
    assert_eq!(
        document.add_spec_object(object(
            "REQ-9",
            "st-1",
            vec![
                choice("ad-1", "ev-closed"),
                AttributeValue::String { definition: s("ad-str"), value: s("too long") },
                choice("ad-1", "ev-missing"),
            ]
        )),
        Err(ModelError::LengthExceeded)
    );
    assert_eq!(snapshot(&document), before);
    assert_eq!(
        document.add_spec_object(object(
            "REQ-9",
            "st-1",
            vec![
                choice("ad-1", "ev-closed"),
                AttributeValue::Integer { definition: s("ad-int"), value: 100 },
                AttributeValue::String { definition: s("ad-str"), value: s("short") },
            ]
        )),
        Ok(())
    );
}

#[test]
fn relation_faults() {
    let mut document = populated();
    document.add_spec_relation(relation("REL-1", "REQ-1", "REQ-2")).unwrap();
    let before = snapshot(&document);
    assert_eq!(
        document.add_spec_relation(relation("REL-1", "REQ-2", "REQ-3")),
        Err(ModelError::DuplicateIdentifier(s("REL-1")))
    );
    let mut untyped = relation("REL-2", "REQ-nowhere", "REQ-gone");
    untyped.spec_type = s("st-none");
    assert_eq!(
        document.add_spec_relation(untyped),
        Err(ModelError::DanglingReference(EntityKind::SpecType, s("st-none")))
    );
    assert_eq!(
        document.add_spec_relation(relation("REL-2", "REQ-nowhere", "REQ-gone")),
        Err(ModelError::DanglingReference(EntityKind::SpecObject, s("REQ-nowhere")))
    );
    assert_eq!(
        document.add_spec_relation(relation("REL-2", "REQ-1", "REQ-gone")),
        Err(ModelError::DanglingReference(EntityKind::SpecObject, s("REQ-gone")))
    );
    let mut valued = relation("REL-2", "REQ-1", "REQ-1");
    valued.values = vec![AttributeValue::Integer { definition: s("ad-int"), value: -1 }];
    assert_eq!(document.add_spec_relation(valued), Err(ModelError::OutOfRange));
    assert_eq!(snapshot(&document), before);
    assert_eq!(document.add_spec_relation(relation("REL-2", "REQ-1", "REQ-1")), Ok(()));
    assert_eq!(document.resolve_spec_relation(&s("REL-2")).unwrap().target, "REQ-1");
    assert!(document.resolve_spec_relation(&s("REL-3")).is_none());
}

#[test]
fn specification_faults() {
    let mut document = populated();
    document.add_specification(specification("SPEC-1", vec![])).unwrap();
    let before = snapshot(&document);
    assert_eq!(
        document.add_specification(specification("SPEC-1", vec![])),
        Err(ModelError::DuplicateIdentifier(s("SPEC-1")))
    );
    let mut untyped = specification("SPEC-2", vec![]);
    untyped.spec_type = s("st-none");
    assert_eq!(
        document.add_specification(untyped),
        Err(ModelError::DanglingReference(EntityKind::SpecType, s("st-none")))
    );
    let mut valued = specification("SPEC-2", vec![node("h-1", "REQ-none", vec![])]);
    valued.values = vec![choice("ad-1", "ev-missing")];
    assert_eq!(document.add_specification(valued), Err(ModelError::UnknownEnumValue));
    assert_eq!(
        document.add_specification(specification(
            "SPEC-2",
            vec![node("h-1", "REQ-1", vec![node("h-2", "REQ-none", vec![])]), node("h-3", "REQ-gone", vec![])]
        )),
        Err(ModelError::DanglingReference(EntityKind::SpecObject, s("REQ-none")))
    );
    assert_eq!(
        document.add_specification(specification(
            "SPEC-2",
            vec![node("h-1", "REQ-1", vec![node("h-2", "REQ-2", vec![node("h-1", "REQ-3", vec![])])])]
        )),
        Err(ModelError::CyclicHierarchy)
    );
    assert_eq!(
        document.add_specification(specification(
            "SPEC-2",
            vec![node("h-1", "REQ-1", vec![]), node("h-1", "REQ-none", vec![])]
        )),
        Err(ModelError::CyclicHierarchy)
    );
    assert_eq!(snapshot(&document), before);
    assert_eq!(
        document.add_specification(specification(
            "SPEC-2",
            vec![node("h-1", "REQ-1", vec![node("h-2", "REQ-1", vec![])]), node("h-3", "REQ-2", vec![])]
        )),
        Ok(())
    );
    assert_eq!(document.resolve_specification(&s("SPEC-2")).unwrap().children.len(), 2);
    assert!(document.resolve_specification(&s("SPEC-3")).is_none());
}

#[test]
fn tool_extensions_are_kept_in_order_and_by_identifier() {
    let mut document = populated();
    assert_eq!(
        document.add_tool_extension(ToolExtension { identifier: s("x-2"), content: s("<b/>") }),
        Ok(())
    );
    assert_eq!(
        document.add_tool_extension(ToolExtension { identifier: s("x-1"), content: s("<a/>") }),
        Ok(())
    );
    let before = snapshot(&document);
    assert_eq!(
        document.add_tool_extension(ToolExtension { identifier: s("x-2"), content: s("<c/>") }),
        Err(ModelError::DuplicateIdentifier(s("x-2")))
    );
    assert_eq!(snapshot(&document), before);
    let kept: Vec<(&str, &str)> = document
        .tool_extensions()
        .iter()
        .map(|e| (e.identifier.as_str(), e.content.as_str()))
        .collect();
    assert_eq!(kept, vec![("x-2", "<b/>"), ("x-1", "<a/>")]);
}

#[test]
fn entities_stay_in_the_order_in_which_they_were_added() {
    let mut document = populated();
    document.add_spec_object(object("REQ-0", "st-1", vec![])).unwrap();
    document.add_spec_relation(relation("REL-b", "REQ-1", "REQ-2")).unwrap();
    document.add_spec_relation(relation("REL-a", "REQ-2", "REQ-1")).unwrap();
    document.add_specification(specification("SPEC-z", vec![])).unwrap();
    document.add_specification(specification("SPEC-a", vec![])).unwrap();
    let content = document.core_content();
    let objects: Vec<&str> = content.spec_objects.iter().map(|o| o.identifier.as_str()).collect();
    assert_eq!(objects, vec!["REQ-1", "REQ-2", "REQ-3", "REQ-0"]);
    let relations: Vec<&str> =
        content.spec_relations.iter().map(|r| r.identifier.as_str()).collect();
    assert_eq!(relations, vec!["REL-b", "REL-a"]);
    let specifications: Vec<&str> =
        content.specifications.iter().map(|x| x.identifier.as_str()).collect();
    assert_eq!(specifications, vec!["SPEC-z", "SPEC-a"]);
    let datatypes: Vec<&str> = content
        .datatype_definitions
        .iter()
        .map(|d| reqsmith::ident::Identified::identifier(d).as_str())
        .collect();
    assert_eq!(datatypes, vec!["dt-1", "dt-int", "dt-str"]);
    let slots: Vec<&str> =
        content.spec_types[0].spec_attributes.iter().map(|a| a.identifier.as_str()).collect();
    assert_eq!(slots, vec!["ad-1", "ad-int", "ad-str"]);
}

#[test]
fn preserved_content_travels_with_its_requirement() {
    let mut document = populated();
    let mut carried = object("REQ-9", "st-1", vec![]);
    carried.extra_attrs.insert(s("vendor:z"), s("<z a=\"1\"/>"));
    carried.extra_attrs.insert(s("vendor:a"), s("raw & unparsed"));
    document.add_spec_object(carried).unwrap();
    let stored = document.resolve_spec_object(&s("REQ-9")).unwrap();
    assert_eq!(stored.extra_attrs.len(), 2);
    assert_eq!(stored.extra_attrs.entry(0).unwrap().key, "vendor:z");
    assert_eq!(stored.extra_attrs.entry(0).unwrap().raw, "<z a=\"1\"/>");
    assert_eq!(stored.extra_attrs.entry(1).unwrap().key, "vendor:a");
    assert_eq!(stored.extra_attrs.entry(1).unwrap().raw, "raw & unparsed");
}

#[test]
fn a_requirement_that_is_pointed_at_is_not_removed() {
    let mut document = populated();
    document.add_spec_relation(relation("REL-1", "REQ-1", "REQ-2")).unwrap();
    document.add_spec_relation(relation("REL-2", "REQ-3", "REQ-3")).unwrap();
    document.add_spec_relation(relation("REL-3", "REQ-2", "REQ-1")).unwrap();
    document
        .add_specification(specification(
            "SPEC-1",
            vec![node("h-1", "REQ-1", vec![node("h-2", "REQ-2", vec![])]), node("h-3", "REQ-1", vec![])],
        ))
        .unwrap();
    document.add_specification(specification("SPEC-2", vec![node("h-1", "REQ-1", vec![])])).unwrap();
    let before = snapshot(&document);
    assert_eq!(
        document.remove_spec_object(&s("REQ-1")).unwrap_err(),
        ModelError::ReferencedElsewhere(vec![
            Referrer::Relation(s("REL-1")),
            Referrer::Relation(s("REL-3")),
            Referrer::Hierarchy { specification: s("SPEC-1"), node: s("h-1") },
            Referrer::Hierarchy { specification: s("SPEC-1"), node: s("h-3") },
            Referrer::Hierarchy { specification: s("SPEC-2"), node: s("h-1") },
        ])
    );
    assert_eq!(snapshot(&document), before);
    assert_eq!(
        document.remove_spec_object(&s("REQ-3")).unwrap_err(),
        ModelError::ReferencedElsewhere(vec![Referrer::Relation(s("REL-2"))])
    );
    assert_eq!(snapshot(&document), before);
    assert_eq!(
        document.remove_spec_object(&s("REQ-2")).unwrap_err(),
        ModelError::ReferencedElsewhere(vec![
            Referrer::Relation(s("REL-1")),
            Referrer::Relation(s("REL-3")),
            Referrer::Hierarchy { specification: s("SPEC-1"), node: s("h-2") },
        ])
    );
    assert_eq!(snapshot(&document), before);
}

#[test]
fn a_requirement_that_nothing_points_at_is_removed() {
    let mut document = populated();
    document.add_spec_relation(relation("REL-1", "REQ-1", "REQ-3")).unwrap();
    let before = snapshot(&document);
    assert_eq!(
        document.remove_spec_object(&s("REQ-none")).unwrap_err(),
        ModelError::DanglingReference(EntityKind::SpecObject, s("REQ-none"))
    );
    assert_eq!(snapshot(&document), before);
    let removed = document.remove_spec_object(&s("REQ-2")).unwrap();
    assert_eq!(removed.identifier, "REQ-2");
    let left: Vec<&str> =
        document.core_content().spec_objects.iter().map(|o| o.identifier.as_str()).collect();
    assert_eq!(left, vec!["REQ-1", "REQ-3"]);
    assert!(document.resolve_spec_object(&s("REQ-2")).is_none());
    assert_eq!(document.add_spec_object(object("REQ-2", "st-1", vec![])), Ok(()));
}

#[test]
fn hierarchy_nodes_are_added_as_last_children() {
    let mut document = populated();
    document.add_specification(specification("SPEC-1", vec![])).unwrap();
    assert_eq!(document.add_spec_hierarchy(&s("SPEC-1"), None, node("h-1", "REQ-1", vec![])), Ok(()));
    assert_eq!(document.add_spec_hierarchy(&s("SPEC-1"), None, node("h-2", "REQ-2", vec![])), Ok(()));
    assert_eq!(
        document.add_spec_hierarchy(&s("SPEC-1"), Some(&s("h-1")), node("h-3", "REQ-3", vec![])),
        Ok(())
    );
    assert_eq!(
        document.add_spec_hierarchy(
            &s("SPEC-1"),
            Some(&s("h-3")),
            node("h-4", "REQ-1", vec![node("h-5", "REQ-2", vec![])])
        ),
        Ok(())
    );
    assert_eq!(
        document.add_spec_hierarchy(&s("SPEC-1"), Some(&s("h-1")), node("h-6", "REQ-3", vec![])),
        Ok(())
    );
    let stored = document.resolve_specification(&s("SPEC-1")).unwrap();
    assert_eq!(
        flatten(&stored.children),
        vec![
            entry("h-1", "REQ-1"),
            entry("h-3", "REQ-3"),
            entry("h-4", "REQ-1"),
            entry("h-5", "REQ-2"),
            entry("h-6", "REQ-3"),
            entry("h-2", "REQ-2"),
        ]
    );
    assert_eq!(stored.children.len(), 2);
    assert_eq!(stored.children[0].children.len(), 2);
    assert_eq!(stored.children[0].children[0].identifier, "h-3");
    assert_eq!(stored.children[0].children[0].children[0].identifier, "h-4");
    assert_eq!(stored.children[0].children[0].children[0].children[0].identifier, "h-5");
    assert_eq!(stored.children[0].children[1].identifier, "h-6");
    assert_eq!(stored.children[1].identifier, "h-2");
}

#[test]
fn a_node_that_brings_back_an_ancestor_is_cyclic() {
    let mut document = populated();
    document
        .add_specification(specification(
            "SPEC-1",
            vec![node("h-1", "REQ-1", vec![node("h-2", "REQ-2", vec![node("h-3", "REQ-3", vec![])])])],
        ))
        .unwrap();
    let before = snapshot(&document);
    assert_eq!(
        document.add_spec_hierarchy(&s("SPEC-1"), Some(&s("h-3")), node("h-1", "REQ-1", vec![])),
        Err(ModelError::CyclicHierarchy)
    );
    assert_eq!(
        document.add_spec_hierarchy(
            &s("SPEC-1"),
            Some(&s("h-3")),
            node("h-4", "REQ-1", vec![node("h-5", "REQ-2", vec![node("h-2", "REQ-3", vec![])])])
        ),
        Err(ModelError::CyclicHierarchy)
    );
    assert_eq!(
        document.add_spec_hierarchy(&s("SPEC-1"), Some(&s("h-3")), node("h-3", "REQ-1", vec![])),
        Err(ModelError::CyclicHierarchy)
    );
    assert_eq!(
        document.add_spec_hierarchy(&s("SPEC-1"), Some(&s("h-2")), node("h-1", "REQ-none", vec![])),
        Err(ModelError::CyclicHierarchy)
    );
    assert_eq!(snapshot(&document), before);
}

#[test]
fn hierarchy_node_faults() {
    let mut document = populated();
    document
        .add_specification(specification("SPEC-1", vec![node("h-1", "REQ-1", vec![])]))
        .unwrap();
    document
        .add_specification(specification("SPEC-2", vec![node("h-9", "REQ-1", vec![])]))
        .unwrap();
    let before = snapshot(&document);
    assert_eq!(
        document.add_spec_hierarchy(&s("SPEC-0"), Some(&s("h-0")), node("h-1", "REQ-none", vec![])),
        Err(ModelError::DanglingReference(EntityKind::Specification, s("SPEC-0")))
    );
    assert_eq!(
        document.add_spec_hierarchy(&s("SPEC-1"), Some(&s("h-9")), node("h-1", "REQ-none", vec![])),
        Err(ModelError::DanglingReference(EntityKind::SpecHierarchy, s("h-9")))
    );
    assert_eq!(
        document.add_spec_hierarchy(&s("SPEC-1"), None, node("h-1", "REQ-none", vec![])),
        Err(ModelError::CyclicHierarchy)
    );
    assert_eq!(
        document.add_spec_hierarchy(
            &s("SPEC-1"),
            None,
            node("h-2", "REQ-1", vec![node("h-3", "REQ-2", vec![]), node("h-3", "REQ-3", vec![])])
        ),
        Err(ModelError::CyclicHierarchy)
    );
    assert_eq!(
        document.add_spec_hierarchy(
            &s("SPEC-1"),
            Some(&s("h-1")),
            node("h-2", "REQ-1", vec![node("h-3", "REQ-none", vec![]), node("h-4", "REQ-gone", vec![])])
        ),
        Err(ModelError::DanglingReference(EntityKind::SpecObject, s("REQ-none")))
    );
    assert_eq!(snapshot(&document), before);
    assert_eq!(
        document.add_spec_hierarchy(&s("SPEC-1"), Some(&s("h-1")), node("h-9", "REQ-2", vec![])),
        Ok(())
    );
    let other = document.resolve_specification(&s("SPEC-2")).unwrap();
    assert_eq!(flatten(&other.children), vec![entry("h-9", "REQ-1")]);
}

#[test]
fn listings_are_in_pre_order() {
    let tree = node(
        "a",
        "REQ-1",
        vec![
            node("b", "REQ-2", vec![node("c", "REQ-3", vec![])]),
            node("d", "REQ-1", vec![]),
        ],
    );
    assert_eq!(
        flatten_node(&tree),
        vec![entry("a", "REQ-1"), entry("b", "REQ-2"), entry("c", "REQ-3"), entry("d", "REQ-1")]
    );
    let copy = tree.clone();
    assert_eq!(
        flatten(&vec![node("z", "REQ-9", vec![]), copy]),
        vec![
            entry("z", "REQ-9"),
            entry("a", "REQ-1"),
            entry("b", "REQ-2"),
            entry("c", "REQ-3"),
            entry("d", "REQ-1"),
        ]
    );
    assert_eq!(flatten(&vec![]), vec![]);
}

#[test]
fn find_gives_the_first_position_and_find_repeat_the_first_repeat() {
    let items = vec![
        entry("a", "1"),
        entry("b", "2"),
        entry("a", "3"),
        entry("c", "4"),
        entry("b", "5"),
    ];
    assert_eq!(find(&items, &s("a")), Some(0));
    assert_eq!(find(&items, &s("b")), Some(1));
    assert_eq!(find(&items, &s("c")), Some(3));
    assert_eq!(find(&items, &s("d")), None);
    assert_eq!(find_repeat(&items), Some(2));
    assert_eq!(find_repeat(&vec![entry("a", "1"), entry("b", "1")]), None);
    assert_eq!(find_repeat(&Vec::<HierarchyEntry>::new()), None);
}

#[test]
fn a_stored_requirement_gives_way_to_a_sound_one_only() {
    let mut document = populated();
    document.add_spec_relation(relation("REL-1", "REQ-1", "REQ-2")).unwrap();
    let before = snapshot(&document);
    assert_eq!(
        document
            .replace_spec_object(object("REQ-1", "st-1", vec![choice("ad-1", "ev-missing")]))
            .unwrap_err(),
        ModelError::UnknownEnumValue
    );
    assert_eq!(
        document.replace_spec_object(object("REQ-9", "st-1", vec![])).unwrap_err(),
        ModelError::DanglingReference(EntityKind::SpecObject, s("REQ-9"))
    );
    assert_eq!(
        document.replace_spec_object(object("REQ-1", "st-none", vec![])).unwrap_err(),
        ModelError::DanglingReference(EntityKind::SpecType, s("st-none"))
    );
    assert_eq!(snapshot(&document), before);
    let former = document
        .replace_spec_object(object("REQ-1", "st-1", vec![choice("ad-1", "ev-closed")]))
        .unwrap();
    assert_eq!(former.identifier, "REQ-1");
    assert_eq!(former.values.len(), 1);
    assert_eq!(former.values[0].definition(), "ad-1");
    let objects: Vec<&str> =
        document.core_content().spec_objects.iter().map(|o| o.identifier.as_str()).collect();
    assert_eq!(objects, vec!["REQ-1", "REQ-2", "REQ-3"]);
    let stored = document.resolve_spec_object(&s("REQ-1")).unwrap();
    assert_eq!(format!("{:?}", stored.values), format!("{:?}", vec![choice("ad-1", "ev-closed")]));
    let last = document.replace_spec_object(object("REQ-3", "st-1", vec![])).unwrap();
    assert_eq!(last.identifier, "REQ-3");
    assert_eq!(document.core_content().spec_objects.len(), 3);
    assert_eq!(document.core_content().spec_objects[2].identifier, "REQ-3");
}
