//! The entities of a document, as plain records.
//!
//! An entity refers to another only by identifier. Building one checks
//! nothing against the rest of a document: that is the aggregate's part.

use vstd::prelude::*;
use crate::binary64::Binary64;
use crate::ident::Identified;
use crate::preserved::PreservedContent;

verus! {

/// Metadata of a document.
#[derive(Debug, Clone)]
pub struct ReqIFHeader {
    pub identifier: String,
    pub creation_time: String,
    pub source_tool_id: String,
    pub title: Option<String>,
    pub comment: Option<String>,
}

/// One value that an enumeration datatype declares.
#[derive(Debug, Clone)]
pub struct EnumValue {
    pub identifier: String,
    pub long_name: Option<String>,
    pub properties: Option<String>,
}

/// The six kinds of datatype, and of value.
#[derive(Debug, Clone, Copy, PartialEq, Eq, Structural)]
pub enum ValueKind {
    Boolean,
    Integer,
    Real,
    String,
    Enumeration,
    XHTML,
}

/// A primitive or enumerated type that attribute definitions refer to.
#[derive(Debug, Clone)]
#[allow(inconsistent_fields)]
pub enum DatatypeDefinition {
    Boolean { identifier: String, long_name: Option<String> },
    Integer { identifier: String, long_name: Option<String>, min: Option<i64>, max: Option<i64> },
    Real {
        identifier: String,
        long_name: Option<String>,
        min: Option<Binary64>,
        max: Option<Binary64>,
        accuracy: Option<u32>,
    },
    String { identifier: String, long_name: Option<String>, max_length: Option<u32> },
    Enumeration { identifier: String, long_name: Option<String>, values: Vec<EnumValue> },
    XHTML { identifier: String, long_name: Option<String> },
}

/// One typed attribute slot that a spec type declares.
#[derive(Debug, Clone)]
pub struct AttributeDefinition {
    pub identifier: String,
    pub long_name: Option<String>,
    pub datatype_ref: String,
    pub last_change: Option<String>,
}

/// The schema shared by a set of requirements, relations or specifications.
/// Nothing marks a type as meant for one of the three: a relation may name
/// any spec type of its document.
#[derive(Debug, Clone)]
pub struct SpecType {
    pub identifier: String,
    pub long_name: Option<String>,
    pub description: Option<String>,
    pub last_change: Option<String>,
    pub spec_attributes: Vec<AttributeDefinition>,
}

/// One typed value that fills an attribute slot.
#[derive(Debug, Clone)]
#[allow(inconsistent_fields)]
pub enum AttributeValue {
    Boolean { definition: String, value: bool },
    Integer { definition: String, value: i64 },
    Real { definition: String, value: Binary64 },
    String { definition: String, value: String },
    Enumeration { definition: String, value: String },
    XHTML { definition: String, value: String },
}

/// One requirement.
#[derive(Debug, Clone)]
pub struct SpecObject {
    pub identifier: String,
    pub spec_type: String,
    pub last_change: Option<String>,
    pub values: Vec<AttributeValue>,
    /// Content read with the object that no other field models.
    pub extra_attrs: PreservedContent,
}

/// A directed link from one requirement to another.
#[derive(Debug, Clone)]
pub struct SpecRelation {
    pub identifier: String,
    pub spec_type: String,
    pub source: String,
    pub target: String,
    pub last_change: Option<String>,
    pub values: Vec<AttributeValue>,
}

/// One node of a hierarchy, standing for one requirement.
#[derive(Debug)]
pub struct SpecHierarchy {
    pub identifier: String,
    pub object: String,
    pub last_change: Option<String>,
    pub children: Vec<SpecHierarchy>,
}

/// The root of one hierarchical view over the requirements.
#[derive(Debug, Clone)]
pub struct Specification {
    pub identifier: String,
    pub spec_type: String,
    pub last_change: Option<String>,
    pub values: Vec<AttributeValue>,
    pub children: Vec<SpecHierarchy>,
}

/// A tool's own payload, carried through untouched.
#[derive(Debug, Clone)]
pub struct ToolExtension {
    pub identifier: String,
    pub content: String,
}

/// The entities of a document, each kind in the order in which it was added.
#[derive(Debug, Clone)]
pub struct CoreContent {
    pub spec_objects: Vec<SpecObject>,
    pub spec_relations: Vec<SpecRelation>,
    pub specifications: Vec<Specification>,
    pub spec_types: Vec<SpecType>,
    pub datatype_definitions: Vec<DatatypeDefinition>,
}

/// Two trees are alike: node by node they hold the same identifier, the
/// same requirement and the same time of change, and as many children, which
/// are alike in turn.
pub open spec fn alike(left: SpecHierarchy, right: SpecHierarchy) -> bool
    decreases left,
{
    &&& left.identifier == right.identifier
    &&& left.object == right.object
    &&& left.last_change == right.last_change
    &&& left.children@.len() == right.children@.len()
    &&& forall|i: int|
        0 <= i < left.children@.len() ==> alike(#[trigger] left.children@[i], right.children@[i])
}

impl Clone for SpecHierarchy {
    /// A copy of the tree under this node.
    fn clone(&self) -> (copy: SpecHierarchy)
        ensures
            alike(*self, copy),
        decreases self,
    {
        let mut children: Vec<SpecHierarchy> = Vec::new();
        let mut i: usize = 0;
        while i < self.children.len()
            invariant
                i <= self.children.len(),
                children@.len() == i,
                forall|k: int| 0 <= k < i ==> alike(#[trigger] self.children@[k], children@[k]),
            decreases self.children.len() - i,
        {
            children.push(self.children[i].clone());
            i = i + 1;
        }
        let last_change = match &self.last_change {
            Some(time) => Some(time.clone()),
            None => None,
        };
        SpecHierarchy {
            identifier: self.identifier.clone(),
            object: self.object.clone(),
            last_change,
            children,
        }
    }
}

impl Identified for EnumValue {
    open spec fn id(&self) -> Seq<char> {
        self.identifier@
    }

    fn identifier(&self) -> (name: &String) {
        &self.identifier
    }
}

impl Identified for AttributeDefinition {
    open spec fn id(&self) -> Seq<char> {
        self.identifier@
    }

    fn identifier(&self) -> (name: &String) {
        &self.identifier
    }
}

impl Identified for SpecType {
    open spec fn id(&self) -> Seq<char> {
        self.identifier@
    }

    fn identifier(&self) -> (name: &String) {
        &self.identifier
    }
}

impl Identified for SpecObject {
    open spec fn id(&self) -> Seq<char> {
        self.identifier@
    }

    fn identifier(&self) -> (name: &String) {
        &self.identifier
    }
}

impl Identified for SpecRelation {
    open spec fn id(&self) -> Seq<char> {
        self.identifier@
    }

    fn identifier(&self) -> (name: &String) {
        &self.identifier
    }
}

impl Identified for SpecHierarchy {
    open spec fn id(&self) -> Seq<char> {
        self.identifier@
    }

    fn identifier(&self) -> (name: &String) {
        &self.identifier
    }
}

impl Identified for Specification {
    open spec fn id(&self) -> Seq<char> {
        self.identifier@
    }

    fn identifier(&self) -> (name: &String) {
        &self.identifier
    }
}

impl Identified for ToolExtension {
    open spec fn id(&self) -> Seq<char> {
        self.identifier@
    }

    fn identifier(&self) -> (name: &String) {
        &self.identifier
    }
}

impl Identified for DatatypeDefinition {
    open spec fn id(&self) -> Seq<char> {
        match self {
            DatatypeDefinition::Boolean { identifier, .. } => identifier@,
            DatatypeDefinition::Integer { identifier, .. } => identifier@,
            DatatypeDefinition::Real { identifier, .. } => identifier@,
            DatatypeDefinition::String { identifier, .. } => identifier@,
            DatatypeDefinition::Enumeration { identifier, .. } => identifier@,
            DatatypeDefinition::XHTML { identifier, .. } => identifier@,
        }
    }

    fn identifier(&self) -> (name: &String) {
        match self {
            DatatypeDefinition::Boolean { identifier, .. } => identifier,
            DatatypeDefinition::Integer { identifier, .. } => identifier,
            DatatypeDefinition::Real { identifier, .. } => identifier,
            DatatypeDefinition::String { identifier, .. } => identifier,
            DatatypeDefinition::Enumeration { identifier, .. } => identifier,
            DatatypeDefinition::XHTML { identifier, .. } => identifier,
        }
    }
}

impl DatatypeDefinition {
    /// Which of the six kinds this datatype is.
    pub open spec fn spec_kind(&self) -> ValueKind {
        match self {
            DatatypeDefinition::Boolean { .. } => ValueKind::Boolean,
            DatatypeDefinition::Integer { .. } => ValueKind::Integer,
            DatatypeDefinition::Real { .. } => ValueKind::Real,
            DatatypeDefinition::String { .. } => ValueKind::String,
            DatatypeDefinition::Enumeration { .. } => ValueKind::Enumeration,
            DatatypeDefinition::XHTML { .. } => ValueKind::XHTML,
        }
    }

    /// Which of the six kinds this datatype is.
    #[verifier::when_used_as_spec(spec_kind)]
    pub fn kind(&self) -> (kind: ValueKind)
        ensures
            kind == self.spec_kind(),
    {
        match self {
            DatatypeDefinition::Boolean { .. } => ValueKind::Boolean,
            DatatypeDefinition::Integer { .. } => ValueKind::Integer,
            DatatypeDefinition::Real { .. } => ValueKind::Real,
            DatatypeDefinition::String { .. } => ValueKind::String,
            DatatypeDefinition::Enumeration { .. } => ValueKind::Enumeration,
            DatatypeDefinition::XHTML { .. } => ValueKind::XHTML,
        }
    }
}

impl AttributeValue {
    /// Which of the six kinds this value is.
    pub open spec fn spec_kind(&self) -> ValueKind {
        match self {
            AttributeValue::Boolean { .. } => ValueKind::Boolean,
            AttributeValue::Integer { .. } => ValueKind::Integer,
            AttributeValue::Real { .. } => ValueKind::Real,
            AttributeValue::String { .. } => ValueKind::String,
            AttributeValue::Enumeration { .. } => ValueKind::Enumeration,
            AttributeValue::XHTML { .. } => ValueKind::XHTML,
        }
    }

    /// Which of the six kinds this value is.
    #[verifier::when_used_as_spec(spec_kind)]
    pub fn kind(&self) -> (kind: ValueKind)
        ensures
            kind == self.spec_kind(),
    {
        match self {
            AttributeValue::Boolean { .. } => ValueKind::Boolean,
            AttributeValue::Integer { .. } => ValueKind::Integer,
            AttributeValue::Real { .. } => ValueKind::Real,
            AttributeValue::String { .. } => ValueKind::String,
            AttributeValue::Enumeration { .. } => ValueKind::Enumeration,
            AttributeValue::XHTML { .. } => ValueKind::XHTML,
        }
    }

    /// The identifier of the attribute definition that this value fills.
    pub open spec fn slot(&self) -> Seq<char> {
        match self {
            AttributeValue::Boolean { definition, .. } => definition@,
            AttributeValue::Integer { definition, .. } => definition@,
            AttributeValue::Real { definition, .. } => definition@,
            AttributeValue::String { definition, .. } => definition@,
            AttributeValue::Enumeration { definition, .. } => definition@,
            AttributeValue::XHTML { definition, .. } => definition@,
        }
    }

    /// The identifier of the attribute definition that this value fills.
    pub fn definition(&self) -> (name: &String)
        ensures
            name@ == self.slot(),
    {
        match self {
            AttributeValue::Boolean { definition, .. } => definition,
            AttributeValue::Integer { definition, .. } => definition,
            AttributeValue::Real { definition, .. } => definition,
            AttributeValue::String { definition, .. } => definition,
            AttributeValue::Enumeration { definition, .. } => definition,
            AttributeValue::XHTML { definition, .. } => definition,
        }
    }
}

impl CoreContent {
    /// Content with no entity in it.
    pub fn new() -> (content: CoreContent)
        ensures
            content.spec_objects@.len() == 0,
            content.spec_relations@.len() == 0,
            content.specifications@.len() == 0,
            content.spec_types@.len() == 0,
            content.datatype_definitions@.len() == 0,
    {
        CoreContent {
            spec_objects: Vec::new(),
            spec_relations: Vec::new(),
            specifications: Vec::new(),
            spec_types: Vec::new(),
            datatype_definitions: Vec::new(),
        }
    }
}

} // verus!
