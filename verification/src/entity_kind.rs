//! The closed set of kinds a model entity can have.
use vstd::prelude::*;

verus! {

/// The kind of a model entity.
#[derive(Clone, Copy, Debug, PartialEq, Eq, Structural, Hash)]
pub enum EntityKind {
    Array,
    Boolean,
    Command,
    CommandPayload,
    Component,
    Date,
    DateTime,
    Double,
    Duration,
    Enum,
    EnumValue,
    Field,
    Float,
    Integer,
    Interface,
    Long,
    MapSchema,
    MapKey,
    MapValue,
    Object,
    Property,
    Relationship,
    String,
    Telemetry,
    Time,
}

/// What a reference expects of the entity it points to.
#[derive(Clone, Copy, Debug, PartialEq, Eq, Structural, Hash)]
pub enum ExpectedKind {
    /// An interface.
    Interface,
    /// Any schema, primitive or complex.
    Schema,
    /// What an interface may hold: property, telemetry, command, component
    /// or relationship.
    Content,
    /// A command's request or response.
    CommandPayload,
    /// A field of an object schema.
    Field,
    /// The key of a map schema.
    MapKey,
    /// The value of a map schema.
    MapValue,
    /// A value of an enum schema.
    EnumValue,
}

/// Whether the kind is one of the schemas without inner structure.
pub open spec fn is_primitive_schema(kind: EntityKind) -> bool {
    kind is Boolean || kind is Date || kind is DateTime || kind is Double || kind is Duration
        || kind is Float || kind is Integer || kind is Long || kind is String || kind is Time
}

/// Whether the kind is a schema with inner structure.
pub open spec fn is_complex_schema(kind: EntityKind) -> bool {
    kind is Array || kind is Enum || kind is MapSchema || kind is Object
}

/// Whether the kind is a schema.
pub open spec fn is_schema(kind: EntityKind) -> bool {
    is_primitive_schema(kind) || is_complex_schema(kind)
}

/// Whether an interface may hold an entity of this kind.
pub open spec fn is_content(kind: EntityKind) -> bool {
    kind is Property || kind is Telemetry || kind is Command || kind is Component
        || kind is Relationship
}

/// Whether entities of this kind must carry a name.
pub open spec fn is_named(kind: EntityKind) -> bool {
    is_content(kind) || kind is Field || kind is EnumValue
}

/// Whether an entity of kind `actual` is what `expected` asks for.
pub open spec fn satisfies(expected: ExpectedKind, actual: EntityKind) -> bool {
    match expected {
        ExpectedKind::Interface => actual is Interface,
        ExpectedKind::Schema => is_schema(actual),
        ExpectedKind::Content => is_content(actual),
        ExpectedKind::CommandPayload => actual is CommandPayload,
        ExpectedKind::Field => actual is Field,
        ExpectedKind::MapKey => actual is MapKey,
        ExpectedKind::MapValue => actual is MapValue,
        ExpectedKind::EnumValue => actual is EnumValue,
    }
}

/// The kind that a type tag of a model document names.
pub open spec fn kind_of_tag(tag: Seq<char>) -> Option<EntityKind> {
    if tag == "Interface"@ {
        Some(EntityKind::Interface)
    } else if tag == "Property"@ {
        Some(EntityKind::Property)
    } else if tag == "Telemetry"@ {
        Some(EntityKind::Telemetry)
    } else if tag == "Command"@ {
        Some(EntityKind::Command)
    } else if tag == "CommandPayload"@ {
        Some(EntityKind::CommandPayload)
    } else if tag == "Component"@ {
        Some(EntityKind::Component)
    } else if tag == "Relationship"@ {
        Some(EntityKind::Relationship)
    } else if tag == "Object"@ {
        Some(EntityKind::Object)
    } else if tag == "Field"@ {
        Some(EntityKind::Field)
    } else if tag == "Array"@ {
        Some(EntityKind::Array)
    } else if tag == "Map"@ {
        Some(EntityKind::MapSchema)
    } else if tag == "MapKey"@ {
        Some(EntityKind::MapKey)
    } else if tag == "MapValue"@ {
        Some(EntityKind::MapValue)
    } else if tag == "Enum"@ {
        Some(EntityKind::Enum)
    } else if tag == "EnumValue"@ {
        Some(EntityKind::EnumValue)
    } else {
        None
    }
}

/// The primitive schema that a schema name of a model document names.
pub open spec fn primitive_of_name(name: Seq<char>) -> Option<EntityKind> {
    if name == "boolean"@ {
        Some(EntityKind::Boolean)
    } else if name == "date"@ {
        Some(EntityKind::Date)
    } else if name == "dateTime"@ {
        Some(EntityKind::DateTime)
    } else if name == "double"@ {
        Some(EntityKind::Double)
    } else if name == "duration"@ {
        Some(EntityKind::Duration)
    } else if name == "float"@ {
        Some(EntityKind::Float)
    } else if name == "integer"@ {
        Some(EntityKind::Integer)
    } else if name == "long"@ {
        Some(EntityKind::Long)
    } else if name == "string"@ {
        Some(EntityKind::String)
    } else if name == "time"@ {
        Some(EntityKind::Time)
    } else {
        None
    }
}

/// Whether `text` reads the same as `word`.
pub fn text_is(text: &String, word: &str) -> (r: bool)
    ensures
        r == (text@ == word@),
{
    let other: String = word.to_owned();
    *text == other
}

impl EntityKind {
    /// Whether the kind is one of the schemas without inner structure.
    pub fn is_primitive_schema(&self) -> (r: bool)
        ensures
            r == is_primitive_schema(*self),
    {
        match self {
            EntityKind::Boolean
            | EntityKind::Date
            | EntityKind::DateTime
            | EntityKind::Double
            | EntityKind::Duration
            | EntityKind::Float
            | EntityKind::Integer
            | EntityKind::Long
            | EntityKind::String
            | EntityKind::Time => true,
            _ => false,
        }
    }

    /// Whether the kind is a schema.
    pub fn is_schema(&self) -> (r: bool)
        ensures
            r == is_schema(*self),
    {
        match self {
            EntityKind::Array | EntityKind::Enum | EntityKind::MapSchema | EntityKind::Object => true,
            _ => self.is_primitive_schema(),
        }
    }

    /// Whether an interface may hold an entity of this kind.
    pub fn is_content(&self) -> (r: bool)
        ensures
            r == is_content(*self),
    {
        match self {
            EntityKind::Property
            | EntityKind::Telemetry
            | EntityKind::Command
            | EntityKind::Component
            | EntityKind::Relationship => true,
            _ => false,
        }
    }

    /// Whether entities of this kind must carry a name.
    pub fn is_named(&self) -> (r: bool)
        ensures
            r == is_named(*self),
    {
        match self {
            EntityKind::Field | EntityKind::EnumValue => true,
            _ => self.is_content(),
        }
    }

    /// Whether an entity of this kind is what `expected` asks for.
    pub fn satisfies(&self, expected: ExpectedKind) -> (r: bool)
        ensures
            r == satisfies(expected, *self),
    {
        match expected {
            ExpectedKind::Interface => matches!(self, EntityKind::Interface),
            ExpectedKind::Schema => self.is_schema(),
            ExpectedKind::Content => self.is_content(),
            ExpectedKind::CommandPayload => matches!(self, EntityKind::CommandPayload),
            ExpectedKind::Field => matches!(self, EntityKind::Field),
            ExpectedKind::MapKey => matches!(self, EntityKind::MapKey),
            ExpectedKind::MapValue => matches!(self, EntityKind::MapValue),
            ExpectedKind::EnumValue => matches!(self, EntityKind::EnumValue),
        }
    }

    /// The kind that a type tag names, if it names one.
    pub fn from_tag(tag: &String) -> (r: Option<EntityKind>)
        ensures
            r == kind_of_tag(tag@),
    {
        if text_is(tag, "Interface") {
            Some(EntityKind::Interface)
        } else if text_is(tag, "Property") {
            Some(EntityKind::Property)
        } else if text_is(tag, "Telemetry") {
            Some(EntityKind::Telemetry)
        } else if text_is(tag, "Command") {
            Some(EntityKind::Command)
        } else if text_is(tag, "CommandPayload") {
            Some(EntityKind::CommandPayload)
        } else if text_is(tag, "Component") {
            Some(EntityKind::Component)
        } else if text_is(tag, "Relationship") {
            Some(EntityKind::Relationship)
        } else if text_is(tag, "Object") {
            Some(EntityKind::Object)
        } else if text_is(tag, "Field") {
            Some(EntityKind::Field)
        } else if text_is(tag, "Array") {
            Some(EntityKind::Array)
        } else if text_is(tag, "Map") {
            Some(EntityKind::MapSchema)
        } else if text_is(tag, "MapKey") {
            Some(EntityKind::MapKey)
        } else if text_is(tag, "MapValue") {
            Some(EntityKind::MapValue)
        } else if text_is(tag, "Enum") {
            Some(EntityKind::Enum)
        } else if text_is(tag, "EnumValue") {
            Some(EntityKind::EnumValue)
        } else {
            None
        }
    }

    /// The primitive schema that a schema name names, if it names one.
    pub fn primitive_from_name(name: &String) -> (r: Option<EntityKind>)
        ensures
            r == primitive_of_name(name@),
    {
        if text_is(name, "boolean") {
            Some(EntityKind::Boolean)
        } else if text_is(name, "date") {
            Some(EntityKind::Date)
        } else if text_is(name, "dateTime") {
            Some(EntityKind::DateTime)
        } else if text_is(name, "double") {
            Some(EntityKind::Double)
        } else if text_is(name, "duration") {
            Some(EntityKind::Duration)
        } else if text_is(name, "float") {
            Some(EntityKind::Float)
        } else if text_is(name, "integer") {
            Some(EntityKind::Integer)
        } else if text_is(name, "long") {
            Some(EntityKind::Long)
        } else if text_is(name, "string") {
            Some(EntityKind::String)
        } else if text_is(name, "time") {
            Some(EntityKind::Time)
        } else {
            None
        }
    }
}

} // verus!
