//! The document: the one place through which entities are added, looked up
//! and removed, so that every reference in it resolves at all times.

use vstd::prelude::*;
use crate::cascade::{
    drop_relations,
    lemma_consistent_after_cascade,
    prune_specifications,
    relations_without,
    specifications_pruned,
};
use crate::check::{
    check_datatype,
    check_listing,
    check_object,
    check_relation,
    check_spec_type,
    check_specification,
    check_typed,
    find_referrers,
    is_consistent,
    reports,
};
use crate::error::{EntityKind, Fault, ModelError};
use crate::hierarchy::{flatten, flatten_with, insert_under};
use crate::ident::{
    contains_id,
    distinct_ids,
    find,
    find_repeat,
    lemma_distinct_push,
    lemma_first_repeat,
    lemma_position,
    lookup,
    position,
    Identified,
};
use crate::model::{
    AttributeDefinition,
    CoreContent,
    DatatypeDefinition,
    ReqIFHeader,
    SpecHierarchy,
    SpecObject,
    SpecRelation,
    SpecType,
    Specification,
    ToolExtension,
};
use crate::preserve::{
    lemma_consistent_with_datatype,
    lemma_consistent_with_graft,
    lemma_consistent_with_object,
    lemma_consistent_with_relation,
    lemma_consistent_with_replacement,
    lemma_consistent_with_spec_type,
    lemma_consistent_with_specification,
    lemma_consistent_without_object,
};
use crate::rules::{
    content_consistent,
    datatype_fault,
    graft_fault,
    object_fault,
    relation_fault,
    removal_fault,
    replacement_fault,
    spec_type_fault,
    specification_fault,
    specification_grafted,
};

verus! {

/// One interchange document: its header, its entities and the tool
/// extensions that came with it.
#[derive(Debug, Clone)]
pub struct ReqIF {
    header: ReqIFHeader,
    core_content: CoreContent,
    tool_extensions: Vec<ToolExtension>,
}

/// The fault of a tool extension that is offered to a document: its
/// identifier is taken.
pub open spec fn extension_fault(extensions: Seq<ToolExtension>, extension: ToolExtension) -> Option<
    Fault,
> {
    if contains_id(extensions, extension.id()) {
        Some(Fault::DuplicateIdentifier(extension.id()))
    } else {
        None
    }
}

/// The parts make a consistent document: the header has an identifier, the
/// content is consistent, and no two tool extensions share an identifier.
pub open spec fn assembles(
    header: ReqIFHeader,
    content: CoreContent,
    extensions: Seq<ToolExtension>,
) -> bool {
    &&& header.identifier@.len() > 0
    &&& content_consistent(content)
    &&& distinct_ids(extensions)
}

/// The identifier that is named, if one is.
pub open spec fn named(id: Option<&String>) -> Option<Seq<char>> {
    match id {
        Some(name) => Some(name@),
        None => None,
    }
}

impl ReqIF {
    /// The header.
    pub closed spec fn head(&self) -> ReqIFHeader {
        self.header
    }

    /// The entities.
    pub closed spec fn content(&self) -> CoreContent {
        self.core_content
    }

    /// The tool extensions, in the order in which they were added.
    pub closed spec fn extensions(&self) -> Seq<ToolExtension> {
        self.tool_extensions@
    }

    /// The document is consistent: its header has an identifier, its
    /// content is consistent, and no two tool extensions share an identifier.
    pub open spec fn wf(&self) -> bool {
        &&& self.head().identifier@.len() > 0
        &&& content_consistent(self.content())
        &&& distinct_ids(self.extensions())
    }

    /// The header and the tool extensions are those of `before`.
    pub open spec fn same_frame(&self, before: &ReqIF) -> bool {
        self.head() == before.head() && self.extensions() == before.extensions()
    }

    /// An empty document under `header`, or nothing where the header has no
    /// identifier.
    pub fn new(header: ReqIFHeader) -> (document: Option<ReqIF>)
        ensures
            document is Some <==> header.identifier@.len() > 0,
            document matches Some(d) ==> {
                &&& d.wf()
                &&& d.head() == header
                &&& d.extensions().len() == 0
                &&& d.content().datatype_definitions@.len() == 0
                &&& d.content().spec_types@.len() == 0
                &&& d.content().spec_objects@.len() == 0
                &&& d.content().spec_relations@.len() == 0
                &&& d.content().specifications@.len() == 0
            },
    {
        if header.identifier.as_str().is_empty() {
            None
        } else {
            Some(ReqIF { header, core_content: CoreContent::new(), tool_extensions: Vec::new() })
        }
    }

    /// Puts a document together from its parts, or gives nothing where
    /// they do not make a consistent document.
    pub fn from_parts(
        header: ReqIFHeader,
        core_content: CoreContent,
        tool_extensions: Vec<ToolExtension>,
    ) -> (document: Option<ReqIF>)
        ensures
            document is Some <==> assembles(header, core_content, tool_extensions@),
            document matches Some(d) ==> {
                &&& d.wf()
                &&& d.head() == header
                &&& d.content() == core_content
                &&& d.extensions() == tool_extensions@
            },
    {
        if header.identifier.as_str().is_empty() || !is_consistent(&core_content) || find_repeat(
            &tool_extensions,
        ).is_some() {
            proof {
                lemma_first_repeat(tool_extensions@);
            }
            None
        } else {
            Some(ReqIF { header, core_content, tool_extensions })
        }
    }

    /// Takes the document apart.
    pub fn into_parts(self) -> (parts: (ReqIFHeader, CoreContent, Vec<ToolExtension>))
        ensures
            parts.0 == self.head(),
            parts.1 == self.content(),
            parts.2@ == self.extensions(),
    {
        (self.header, self.core_content, self.tool_extensions)
    }

    /// The header.
    pub fn header(&self) -> (header: &ReqIFHeader)
        ensures
            *header == self.head(),
    {
        &self.header
    }

    /// The entities.
    pub fn core_content(&self) -> (content: &CoreContent)
        ensures
            *content == self.content(),
    {
        &self.core_content
    }

    /// The tool extensions, in the order in which they were added.
    pub fn tool_extensions(&self) -> (extensions: &Vec<ToolExtension>)
        ensures
            extensions@ == self.extensions(),
    {
        &self.tool_extensions
    }

    /// Adds a datatype at the end of its namespace, unless it has a fault;
    /// then the document stays as it was.
    pub fn add_datatype(&mut self, datatype: DatatypeDefinition) -> (outcome: Result<
        (),
        ModelError,
    >)
        requires
            old(self).wf(),
        ensures
            final(self).wf(),
            reports(outcome, datatype_fault(old(self).content(), datatype)),
            outcome is Err ==> *final(self) == *old(self),
            outcome is Ok ==> {
                &&& final(self).same_frame(old(self))
                &&& final(self).content().datatype_definitions@ == old(
                    self,
                ).content().datatype_definitions@.push(datatype)
                &&& final(self).content().spec_types == old(self).content().spec_types
                &&& final(self).content().spec_objects == old(self).content().spec_objects
                &&& final(self).content().spec_relations == old(self).content().spec_relations
                &&& final(self).content().specifications == old(self).content().specifications
            },
    {
        match check_datatype(&self.core_content, &datatype) {
            Err(error) => Err(error),
            Ok(_) => {
                let ghost before = self.core_content;
                self.core_content.datatype_definitions.push(datatype);
                proof {
                    lemma_consistent_with_datatype(before, self.core_content, datatype);
                }
                Ok(())
            },
        }
    }

    /// Adds a spec type at the end of its namespace, unless it has a fault;
    /// then the document stays as it was.
    pub fn add_spec_type(&mut self, spec_type: SpecType) -> (outcome: Result<(), ModelError>)
        requires
            old(self).wf(),
        ensures
            final(self).wf(),
            reports(outcome, spec_type_fault(old(self).content(), spec_type)),
            outcome is Err ==> *final(self) == *old(self),
            outcome is Ok ==> {
                &&& final(self).same_frame(old(self))
                &&& final(self).content().datatype_definitions == old(
                    self,
                ).content().datatype_definitions
                &&& final(self).content().spec_types@ == old(self).content().spec_types@.push(
                    spec_type,
                )
                &&& final(self).content().spec_objects == old(self).content().spec_objects
                &&& final(self).content().spec_relations == old(self).content().spec_relations
                &&& final(self).content().specifications == old(self).content().specifications
            },
    {
        match check_spec_type(&self.core_content, &spec_type) {
            Err(error) => Err(error),
            Ok(_) => {
                let ghost before = self.core_content;
                self.core_content.spec_types.push(spec_type);
                proof {
                    lemma_consistent_with_spec_type(before, self.core_content, spec_type);
                }
                Ok(())
            },
        }
    }

    /// Adds a requirement at the end of its namespace, unless it has a
    /// fault; then the document stays as it was.
    pub fn add_spec_object(&mut self, object: SpecObject) -> (outcome: Result<(), ModelError>)
        requires
            old(self).wf(),
        ensures
            final(self).wf(),
            reports(outcome, object_fault(old(self).content(), object)),
            outcome is Err ==> *final(self) == *old(self),
            outcome is Ok ==> {
                &&& final(self).same_frame(old(self))
                &&& final(self).content().datatype_definitions == old(
                    self,
                ).content().datatype_definitions
                &&& final(self).content().spec_types == old(self).content().spec_types
                &&& final(self).content().spec_objects@ == old(self).content().spec_objects@.push(
                    object,
                )
                &&& final(self).content().spec_relations == old(self).content().spec_relations
                &&& final(self).content().specifications == old(self).content().specifications
            },
    {
        match check_object(&self.core_content, &object) {
            Err(error) => Err(error),
            Ok(_) => {
                let ghost before = self.core_content;
                self.core_content.spec_objects.push(object);
                proof {
                    lemma_consistent_with_object(before, self.core_content, object);
                }
                Ok(())
            },
        }
    }

    /// Puts a requirement in the place of the stored one with the same
    /// identifier and hands the stored one back, unless the new one has a
    /// fault; then the document stays as it was.
    pub fn replace_spec_object(&mut self, object: SpecObject) -> (outcome: Result<
        SpecObject,
        ModelError,
    >)
        requires
            old(self).wf(),
        ensures
            final(self).wf(),
            match outcome {
                Ok(former) => {
                    &&& replacement_fault(old(self).content(), object) is None
                    &&& position(old(self).content().spec_objects@, object.id()) matches Some(k)
                    &&& former == old(self).content().spec_objects@[k]
                    &&& final(self).content().spec_objects@ == old(
                        self,
                    ).content().spec_objects@.update(k, object)
                    &&& final(self).same_frame(old(self))
                    &&& final(self).content().datatype_definitions == old(
                        self,
                    ).content().datatype_definitions
                    &&& final(self).content().spec_types == old(self).content().spec_types
                    &&& final(self).content().spec_relations == old(self).content().spec_relations
                    &&& final(self).content().specifications == old(self).content().specifications
                },
                Err(error) => {
                    &&& replacement_fault(old(self).content(), object) == Some(error@)
                    &&& *final(self) == *old(self)
                },
            },
    {
        proof {
            lemma_position(self.core_content.spec_objects@, object.identifier@);
        }
        let at = match find(&self.core_content.spec_objects, &object.identifier) {
            None => {
                return Err(
                    ModelError::DanglingReference(
                        EntityKind::SpecObject,
                        object.identifier.clone(),
                    ),
                );
            },
            Some(at) => at,
        };
        match check_typed(&self.core_content, &object.spec_type, &object.values) {
            Err(error) => Err(error),
            Ok(_) => {
                let ghost before = self.core_content;
                self.core_content.spec_objects.push(object);
                let former = self.core_content.spec_objects.swap_remove(at);
                proof {
                    assert(self.core_content.spec_objects@ =~= before.spec_objects@.update(
                        at as int,
                        object,
                    ));
                    lemma_consistent_with_replacement(before, self.core_content, at as int, object);
                }
                Ok(former)
            },
        }
    }

    /// Adds a relation at the end of its namespace, unless it has a fault;
    /// then the document stays as it was.
    pub fn add_spec_relation(&mut self, relation: SpecRelation) -> (outcome: Result<
        (),
        ModelError,
    >)
        requires
            old(self).wf(),
        ensures
            final(self).wf(),
            reports(outcome, relation_fault(old(self).content(), relation)),
            outcome is Err ==> *final(self) == *old(self),
            outcome is Ok ==> {
                &&& final(self).same_frame(old(self))
                &&& final(self).content().datatype_definitions == old(
                    self,
                ).content().datatype_definitions
                &&& final(self).content().spec_types == old(self).content().spec_types
                &&& final(self).content().spec_objects == old(self).content().spec_objects
                &&& final(self).content().spec_relations@ == old(
                    self,
                ).content().spec_relations@.push(relation)
                &&& final(self).content().specifications == old(self).content().specifications
            },
    {
        match check_relation(&self.core_content, &relation) {
            Err(error) => Err(error),
            Ok(_) => {
                let ghost before = self.core_content;
                self.core_content.spec_relations.push(relation);
                proof {
                    lemma_consistent_with_relation(before, self.core_content, relation);
                }
                Ok(())
            },
        }
    }

    /// Adds a specification, with its hierarchy, at the end of its
    /// namespace, unless it has a fault; then the document stays as it was.
    pub fn add_specification(&mut self, specification: Specification) -> (outcome: Result<
        (),
        ModelError,
    >)
        requires
            old(self).wf(),
        ensures
            final(self).wf(),
            reports(outcome, specification_fault(old(self).content(), specification)),
            outcome is Err ==> *final(self) == *old(self),
            outcome is Ok ==> {
                &&& final(self).same_frame(old(self))
                &&& final(self).content().datatype_definitions == old(
                    self,
                ).content().datatype_definitions
                &&& final(self).content().spec_types == old(self).content().spec_types
                &&& final(self).content().spec_objects == old(self).content().spec_objects
                &&& final(self).content().spec_relations == old(self).content().spec_relations
                &&& final(self).content().specifications@ == old(
                    self,
                ).content().specifications@.push(specification)
            },
    {
        match check_specification(&self.core_content, &specification) {
            Err(error) => Err(error),
            Ok(_) => {
                let ghost before = self.core_content;
                self.core_content.specifications.push(specification);
                proof {
                    lemma_consistent_with_specification(before, self.core_content, specification);
                }
                Ok(())
            },
        }
    }

    /// Adds a hierarchy node, with the tree under it, to the hierarchy of a
    /// specification: as the last child of the node `parent` where one is
    /// named, else as the last node at the root. Where that has a fault the
    /// document stays as it was.
    pub fn add_spec_hierarchy(
        &mut self,
        specification: &String,
        parent: Option<&String>,
        node: SpecHierarchy,
    ) -> (outcome: Result<(), ModelError>)
        requires
            old(self).wf(),
        ensures
            final(self).wf(),
            reports(outcome, graft_fault(old(self).content(), specification@, named(parent), node)),
            outcome is Err ==> *final(self) == *old(self),
            outcome is Ok ==> {
                &&& final(self).same_frame(old(self))
                &&& final(self).content().datatype_definitions == old(
                    self,
                ).content().datatype_definitions
                &&& final(self).content().spec_types == old(self).content().spec_types
                &&& final(self).content().spec_objects == old(self).content().spec_objects
                &&& final(self).content().spec_relations == old(self).content().spec_relations
                &&& ({
                    let before = old(self).content().specifications@;
                    let after = final(self).content().specifications@;
                    &&& after.len() == before.len()
                    &&& position(before, specification@) matches Some(k)
                    &&& specification_grafted(before[k], after[k], named(parent), node)
                    &&& forall|j: int|
                        0 <= j < before.len() && j != k ==> #[trigger] after[j] == before[j]
                })
            },
    {
        let at = match find(&self.core_content.specifications, specification) {
            None => {
                return Err(
                    ModelError::DanglingReference(
                        EntityKind::Specification,
                        specification.clone(),
                    ),
                );
            },
            Some(at) => at,
        };
        match parent {
            Some(name) => {
                let listing = flatten(&self.core_content.specifications[at].children);
                proof {
                    lemma_position(listing@, name@);
                }
                if find(&listing, name).is_none() {
                    return Err(
                        ModelError::DanglingReference(EntityKind::SpecHierarchy, name.clone()),
                    );
                }
            },
            None => {},
        }
        let joined = flatten_with(&self.core_content.specifications[at].children, &node);
        match check_listing(&self.core_content.spec_objects, &joined) {
            Err(error) => Err(error),
            Ok(_) => {
                let ghost before = self.core_content;
                let owner = &mut self.core_content.specifications[at];
                match parent {
                    Some(name) => {
                        let rest = insert_under(&mut owner.children, name, node);
                        assert(rest is None);
                    },
                    None => owner.children.push(node),
                }
                proof {
                    lemma_consistent_with_graft(
                        before,
                        self.core_content,
                        at as int,
                        named(parent),
                        node,
                    );
                }
                Ok(())
            },
        }
    }

    /// Takes the requirement `id` out of the document and hands it back,
    /// unless there is none or something still points at it; then the
    /// document stays as it was, and the error lists what points at it.
    pub fn remove_spec_object(&mut self, id: &String) -> (outcome: Result<SpecObject, ModelError>)
        requires
            old(self).wf(),
        ensures
            final(self).wf(),
            match outcome {
                Ok(removed) => {
                    &&& removal_fault(old(self).content(), id@) is None
                    &&& position(old(self).content().spec_objects@, id@) matches Some(k)
                    &&& removed == old(self).content().spec_objects@[k]
                    &&& final(self).content().spec_objects@ == old(
                        self,
                    ).content().spec_objects@.remove(k)
                    &&& final(self).same_frame(old(self))
                    &&& final(self).content().datatype_definitions == old(
                        self,
                    ).content().datatype_definitions
                    &&& final(self).content().spec_types == old(self).content().spec_types
                    &&& final(self).content().spec_relations == old(self).content().spec_relations
                    &&& final(self).content().specifications == old(self).content().specifications
                },
                Err(error) => {
                    &&& removal_fault(old(self).content(), id@) == Some(error@)
                    &&& *final(self) == *old(self)
                },
            },
    {
        proof {
            lemma_position(self.core_content.spec_objects@, id@);
        }
        let at = match find(&self.core_content.spec_objects, id) {
            None => {
                return Err(ModelError::DanglingReference(EntityKind::SpecObject, id.clone()));
            },
            Some(at) => at,
        };
        let by = find_referrers(&self.core_content, id);
        if by.len() > 0 {
            return Err(ModelError::ReferencedElsewhere(by));
        }
        let ghost before = self.core_content;
        let removed = self.core_content.spec_objects.remove(at);
        proof {
            lemma_consistent_without_object(before, self.core_content, at as int);
        }
        Ok(removed)
    }

    /// Takes the requirement `id` out of the document together with
    /// everything that points at it, and hands it back: the relations that
    /// have it as an end go, and every hierarchy node that stands for it
    /// goes with the tree under it. Where there is no such requirement the
    /// document stays as it was.
    pub fn remove_spec_object_cascading(&mut self, id: &String) -> (outcome: Result<
        SpecObject,
        ModelError,
    >)
        requires
            old(self).wf(),
        ensures
            final(self).wf(),
            outcome is Ok <==> contains_id(old(self).content().spec_objects@, id@),
            match outcome {
                Ok(removed) => {
                    &&& position(old(self).content().spec_objects@, id@) matches Some(k)
                    &&& removed == old(self).content().spec_objects@[k]
                    &&& final(self).content().spec_objects@ == old(
                        self,
                    ).content().spec_objects@.remove(k)
                    &&& final(self).content().spec_relations@ == relations_without(
                        old(self).content().spec_relations@,
                        id@,
                    )
                    &&& specifications_pruned(
                        old(self).content().specifications@,
                        final(self).content().specifications@,
                        id@,
                    )
                    &&& final(self).same_frame(old(self))
                    &&& final(self).content().datatype_definitions == old(
                        self,
                    ).content().datatype_definitions
                    &&& final(self).content().spec_types == old(self).content().spec_types
                },
                Err(error) => {
                    &&& error@ == Fault::DanglingReference(EntityKind::SpecObject, id@)
                    &&& *final(self) == *old(self)
                },
            },
    {
        proof {
            lemma_position(self.core_content.spec_objects@, id@);
        }
        let at = match find(&self.core_content.spec_objects, id) {
            None => {
                return Err(ModelError::DanglingReference(EntityKind::SpecObject, id.clone()));
            },
            Some(at) => at,
        };
        let ghost before = self.core_content;
        drop_relations(&mut self.core_content.spec_relations, id);
        prune_specifications(&mut self.core_content.specifications, id);
        let removed = self.core_content.spec_objects.remove(at);
        proof {
            lemma_consistent_after_cascade(before, self.core_content, at as int);
        }
        Ok(removed)
    }

    /// Adds a tool extension at the end, unless its identifier is taken;
    /// then the document stays as it was.
    pub fn add_tool_extension(&mut self, extension: ToolExtension) -> (outcome: Result<
        (),
        ModelError,
    >)
        requires
            old(self).wf(),
        ensures
            final(self).wf(),
            reports(outcome, extension_fault(old(self).extensions(), extension)),
            outcome is Err ==> *final(self) == *old(self),
            outcome is Ok ==> {
                &&& final(self).head() == old(self).head()
                &&& final(self).content() == old(self).content()
                &&& final(self).extensions() == old(self).extensions().push(extension)
            },
    {
        proof {
            lemma_position(self.tool_extensions@, extension.identifier@);
        }
        if find(&self.tool_extensions, &extension.identifier).is_some() {
            return Err(ModelError::DuplicateIdentifier(extension.identifier.clone()));
        }
        proof {
            lemma_distinct_push(self.tool_extensions@, extension);
        }
        self.tool_extensions.push(extension);
        Ok(())
    }

    /// The datatype with this identifier.
    pub fn resolve_datatype(&self, id: &String) -> (found: Option<&DatatypeDefinition>)
        ensures
            match found {
                Some(entity) => lookup(self.content().datatype_definitions@, id@) == Some(*entity),
                None => lookup(self.content().datatype_definitions@, id@) is None,
            },
    {
        match find(&self.core_content.datatype_definitions, id) {
            Some(at) => Some(&self.core_content.datatype_definitions[at]),
            None => None,
        }
    }

    /// The spec type with this identifier.
    pub fn resolve_spec_type(&self, id: &String) -> (found: Option<&SpecType>)
        ensures
            match found {
                Some(entity) => lookup(self.content().spec_types@, id@) == Some(*entity),
                None => lookup(self.content().spec_types@, id@) is None,
            },
    {
        match find(&self.core_content.spec_types, id) {
            Some(at) => Some(&self.core_content.spec_types[at]),
            None => None,
        }
    }

    /// The attribute definition with identifier `id` among those that the
    /// spec type `spec_type` declares.
    pub fn resolve_attribute_definition(&self, spec_type: &String, id: &String) -> (found: Option<
        &AttributeDefinition,
    >)
        ensures
            match found {
                Some(entity) => {
                    &&& lookup(self.content().spec_types@, spec_type@) matches Some(owner)
                    &&& lookup(owner.spec_attributes@, id@) == Some(*entity)
                },
                None => lookup(self.content().spec_types@, spec_type@) matches Some(owner)
                    ==> lookup(owner.spec_attributes@, id@) is None,
            },
    {
        match find(&self.core_content.spec_types, spec_type) {
            Some(at) => {
                let owner = &self.core_content.spec_types[at];
                match find(&owner.spec_attributes, id) {
                    Some(slot) => Some(&owner.spec_attributes[slot]),
                    None => None,
                }
            },
            None => None,
        }
    }

    /// The requirement with this identifier.
    pub fn resolve_spec_object(&self, id: &String) -> (found: Option<&SpecObject>)
        ensures
            match found {
                Some(entity) => lookup(self.content().spec_objects@, id@) == Some(*entity),
                None => lookup(self.content().spec_objects@, id@) is None,
            },
    {
        match find(&self.core_content.spec_objects, id) {
            Some(at) => Some(&self.core_content.spec_objects[at]),
            None => None,
        }
    }

    /// The relation with this identifier.
    pub fn resolve_spec_relation(&self, id: &String) -> (found: Option<&SpecRelation>)
        ensures
            match found {
                Some(entity) => lookup(self.content().spec_relations@, id@) == Some(*entity),
                None => lookup(self.content().spec_relations@, id@) is None,
            },
    {
        match find(&self.core_content.spec_relations, id) {
            Some(at) => Some(&self.core_content.spec_relations[at]),
            None => None,
        }
    }

    /// The specification with this identifier.
    pub fn resolve_specification(&self, id: &String) -> (found: Option<&Specification>)
        ensures
            match found {
                Some(entity) => lookup(self.content().specifications@, id@) == Some(*entity),
                None => lookup(self.content().specifications@, id@) is None,
            },
    {
        match find(&self.core_content.specifications, id) {
            Some(at) => Some(&self.core_content.specifications[at]),
            None => None,
        }
    }
}

} // verus!
