//! Which members each kind of entity interprets, under which dialect.
use vstd::prelude::*;
use crate::entity::EntityField;
use crate::entity_kind::{is_named, text_is, EntityKind};

verus! {

/// What the kind of an entity makes of a member called `name`.
#[derive(Clone, Copy, Debug, PartialEq, Eq, Structural)]
pub enum NameRule {
    /// The entity must have a name.
    Required,
    /// The entity may have a name.
    Optional,
    /// The kind has no name; a member of that name is not interpreted.
    Unrecognized,
}

/// How a member that refers to other entities is read.
#[derive(Clone, Copy, Debug, PartialEq, Eq, Structural)]
pub struct Rule {
    /// The field that the member stands for.
    pub field: EntityField,
    /// Whether the member may hold a list of references.
    pub many: bool,
    /// The kind of an object written in place, where it declares none.
    pub default_kind: Option<EntityKind>,
}

/// The first dialect in which an interface can extend another.
pub const EXTENDS_SINCE: i32 = 2;

/// What `kind` makes of a member called `name`.
pub open spec fn name_rule(kind: EntityKind) -> NameRule {
    if is_named(kind) {
        NameRule::Required
    } else if kind is CommandPayload || kind is MapKey || kind is MapValue {
        NameRule::Optional
    } else {
        NameRule::Unrecognized
    }
}

/// Whether entities of this kind must have a schema.
pub open spec fn requires_schema(kind: EntityKind) -> bool {
    kind is Property || kind is Telemetry || kind is Field || kind is Component
}

/// Whether entities of this kind have a `schema` member.
pub open spec fn bears_schema(kind: EntityKind) -> bool {
    requires_schema(kind) || kind is CommandPayload || kind is MapKey || kind is MapValue
}

/// How an entity of kind `kind` under dialect `version` reads the member
/// called `name`, where that member refers to other entities. A member that
/// a dialect does not know is not interpreted under it.
pub open spec fn field_rule(kind: EntityKind, version: i32, name: Seq<char>) -> Option<Rule> {
    if name == "schema"@ && bears_schema(kind) {
        Some(
            Rule {
                field: EntityField::Schema,
                many: false,
                default_kind: if kind is Component {
                    Some(EntityKind::Interface)
                } else {
                    None
                },
            },
        )
    } else if name == "contents"@ && kind is Interface {
        Some(Rule { field: EntityField::Contents, many: true, default_kind: None })
    } else if name == "extends"@ && kind is Interface && version >= EXTENDS_SINCE {
        Some(
            Rule { field: EntityField::Extends, many: true, default_kind: Some(EntityKind::Interface) },
        )
    } else if name == "request"@ && kind is Command {
        Some(
            Rule {
                field: EntityField::Request,
                many: false,
                default_kind: Some(EntityKind::CommandPayload),
            },
        )
    } else if name == "response"@ && kind is Command {
        Some(
            Rule {
                field: EntityField::Response,
                many: false,
                default_kind: Some(EntityKind::CommandPayload),
            },
        )
    } else if name == "target"@ && kind is Relationship {
        Some(
            Rule { field: EntityField::Target, many: false, default_kind: Some(EntityKind::Interface) },
        )
    } else if name == "fields"@ && kind is Object {
        Some(Rule { field: EntityField::Fields, many: true, default_kind: Some(EntityKind::Field) })
    } else if name == "elementSchema"@ && kind is Array {
        Some(Rule { field: EntityField::ElementSchema, many: false, default_kind: None })
    } else if name == "mapKey"@ && kind is MapSchema {
        Some(Rule { field: EntityField::MapKey, many: false, default_kind: Some(EntityKind::MapKey) })
    } else if name == "mapValue"@ && kind is MapSchema {
        Some(
            Rule { field: EntityField::MapValue, many: false, default_kind: Some(EntityKind::MapValue) },
        )
    } else if name == "enumValues"@ && kind is Enum {
        Some(
            Rule {
                field: EntityField::EnumValues,
                many: true,
                default_kind: Some(EntityKind::EnumValue),
            },
        )
    } else if name == "valueSchema"@ && kind is Enum {
        Some(Rule { field: EntityField::ValueSchema, many: false, default_kind: None })
    } else {
        None
    }
}

/// Whether an entity of kind `kind` under dialect `version` interprets the
/// member called `name`. `context` says whether the object is one whose
/// `@context` member gives the dialect.
pub open spec fn recognized(kind: EntityKind, version: i32, context: bool, name: Seq<char>) -> bool {
    ||| name == "@id"@
    ||| name == "@type"@
    ||| (name == "@context"@ && context)
    ||| (name == "name"@ && !(name_rule(kind) is Unrecognized))
    ||| field_rule(kind, version, name) is Some
}

impl EntityKind {
    /// What the kind makes of a member called `name`.
    pub fn name_rule(&self) -> (r: NameRule)
        ensures
            r == name_rule(*self),
    {
        if self.is_named() {
            NameRule::Required
        } else {
            match self {
                EntityKind::CommandPayload | EntityKind::MapKey | EntityKind::MapValue => {
                    NameRule::Optional
                },
                _ => NameRule::Unrecognized,
            }
        }
    }

    /// Whether entities of this kind must have a schema.
    pub fn requires_schema(&self) -> (r: bool)
        ensures
            r == requires_schema(*self),
    {
        match self {
            EntityKind::Property
            | EntityKind::Telemetry
            | EntityKind::Field
            | EntityKind::Component => true,
            _ => false,
        }
    }

    /// Whether entities of this kind have a `schema` member.
    pub fn bears_schema(&self) -> (r: bool)
        ensures
            r == bears_schema(*self),
    {
        match self {
            EntityKind::CommandPayload | EntityKind::MapKey | EntityKind::MapValue => true,
            _ => self.requires_schema(),
        }
    }

    /// How an entity of this kind under dialect `version` reads the member
    /// called `name`, where that member refers to other entities.
    pub fn field_rule(&self, version: i32, name: &String) -> (r: Option<Rule>)
        ensures
            r == field_rule(*self, version, name@),
    {
        let kind = *self;
        if text_is(name, "schema") && kind.bears_schema() {
            Some(
                Rule {
                    field: EntityField::Schema,
                    many: false,
                    default_kind: if kind == EntityKind::Component {
                        Some(EntityKind::Interface)
                    } else {
                        None
                    },
                },
            )
        } else if text_is(name, "contents") && kind == EntityKind::Interface {
            Some(Rule { field: EntityField::Contents, many: true, default_kind: None })
        } else if text_is(name, "extends") && kind == EntityKind::Interface && version
            >= EXTENDS_SINCE {
            Some(
                Rule {
                    field: EntityField::Extends,
                    many: true,
                    default_kind: Some(EntityKind::Interface),
                },
            )
        } else if text_is(name, "request") && kind == EntityKind::Command {
            Some(
                Rule {
                    field: EntityField::Request,
                    many: false,
                    default_kind: Some(EntityKind::CommandPayload),
                },
            )
        } else if text_is(name, "response") && kind == EntityKind::Command {
            Some(
                Rule {
                    field: EntityField::Response,
                    many: false,
                    default_kind: Some(EntityKind::CommandPayload),
                },
            )
        } else if text_is(name, "target") && kind == EntityKind::Relationship {
            Some(
                Rule {
                    field: EntityField::Target,
                    many: false,
                    default_kind: Some(EntityKind::Interface),
                },
            )
        } else if text_is(name, "fields") && kind == EntityKind::Object {
            Some(
                Rule { field: EntityField::Fields, many: true, default_kind: Some(EntityKind::Field) },
            )
        } else if text_is(name, "elementSchema") && kind == EntityKind::Array {
            Some(Rule { field: EntityField::ElementSchema, many: false, default_kind: None })
        } else if text_is(name, "mapKey") && kind == EntityKind::MapSchema {
            Some(
                Rule {
                    field: EntityField::MapKey,
                    many: false,
                    default_kind: Some(EntityKind::MapKey),
                },
            )
        } else if text_is(name, "mapValue") && kind == EntityKind::MapSchema {
            Some(
                Rule {
                    field: EntityField::MapValue,
                    many: false,
                    default_kind: Some(EntityKind::MapValue),
                },
            )
        } else if text_is(name, "enumValues") && kind == EntityKind::Enum {
            Some(
                Rule {
                    field: EntityField::EnumValues,
                    many: true,
                    default_kind: Some(EntityKind::EnumValue),
                },
            )
        } else if text_is(name, "valueSchema") && kind == EntityKind::Enum {
            Some(Rule { field: EntityField::ValueSchema, many: false, default_kind: None })
        } else {
            None
        }
    }

    /// Whether an entity of this kind under dialect `version` interprets
    /// the member called `name`.
    pub fn recognizes(&self, version: i32, context: bool, name: &String) -> (r: bool)
        ensures
            r == recognized(*self, version, context, name@),
    {
        if text_is(name, "@id") || text_is(name, "@type") {
            return true;
        }
        if text_is(name, "@context") && context {
            return true;
        }
        if text_is(name, "name") && self.name_rule() != NameRule::Unrecognized {
            return true;
        }
        self.field_rule(version, name).is_some()
    }
}

} // verus!
