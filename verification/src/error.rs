//! What can be wrong with a batch of model documents.
use vstd::prelude::*;
use crate::dtmi::{Dtmi, DtmiView};
use crate::entity::EntityField;
use crate::entity_kind::{EntityKind, ExpectedKind};
use crate::text::views;

verus! {

/// The failure of a parse. Every failure ends the batch; none is retried.
#[derive(Debug)]
pub enum ParseError {
    /// A text that should be an identifier is none. An object without any
    /// identifier is reported with the empty text.
    MalformedIdentifier { text: String },
    /// The type tags of an object name no kind, or more than one.
    UnknownEntityKind { id: Dtmi, types: Vec<String> },
    /// A field that the entity's kind requires is absent or has a value of
    /// the wrong shape.
    MissingRequiredField { id: Dtmi, field: EntityField },
    /// Two entities share this identifier.
    DuplicateIdentifier { id: Dtmi },
    /// A reference names an identifier that no entity has.
    UnresolvedReference { from: Dtmi, field: EntityField, target: Dtmi },
    /// A reference names an entity of a kind that the field does not accept.
    ReferenceKindMismatch {
        from: Dtmi,
        field: EntityField,
        expected_kind: ExpectedKind,
        actual_kind: EntityKind,
    },
    /// Two elements of one entity, own or inherited, share this name.
    DuplicateContentName { interface: Dtmi, name: String },
    /// Interfaces that extend one another in a circle, each extending the
    /// next and the last the first.
    CyclicExtension { cycle: Vec<Dtmi> },
}

/// What a failure says, apart from how it is stored.
pub enum ErrorView {
    MalformedIdentifier { text: Seq<char> },
    UnknownEntityKind { id: DtmiView, types: Seq<Seq<char>> },
    MissingRequiredField { id: DtmiView, field: EntityField },
    DuplicateIdentifier { id: DtmiView },
    UnresolvedReference { from: DtmiView, field: EntityField, target: DtmiView },
    ReferenceKindMismatch {
        from: DtmiView,
        field: EntityField,
        expected_kind: ExpectedKind,
        actual_kind: EntityKind,
    },
    DuplicateContentName { interface: DtmiView, name: Seq<char> },
    CyclicExtension { cycle: Seq<DtmiView> },
}

impl View for ParseError {
    type V = ErrorView;

    open spec fn view(&self) -> ErrorView {
        match self {
            ParseError::MalformedIdentifier { text } => ErrorView::MalformedIdentifier {
                text: text@,
            },
            ParseError::UnknownEntityKind { id, types } => ErrorView::UnknownEntityKind {
                id: id@,
                types: views(types@),
            },
            ParseError::MissingRequiredField { id, field } => ErrorView::MissingRequiredField {
                id: id@,
                field: *field,
            },
            ParseError::DuplicateIdentifier { id } => ErrorView::DuplicateIdentifier { id: id@ },
            ParseError::UnresolvedReference { from, field, target } => ErrorView::UnresolvedReference {
                from: from@,
                field: *field,
                target: target@,
            },
            ParseError::ReferenceKindMismatch {
                from,
                field,
                expected_kind,
                actual_kind,
            } => ErrorView::ReferenceKindMismatch {
                from: from@,
                field: *field,
                expected_kind: *expected_kind,
                actual_kind: *actual_kind,
            },
            ParseError::DuplicateContentName { interface, name } => ErrorView::DuplicateContentName {
                interface: interface@,
                name: name@,
            },
            ParseError::CyclicExtension { cycle } => ErrorView::CyclicExtension {
                cycle: cycle@.map_values(|d: Dtmi| d@),
            },
        }
    }
}

} // verus!
