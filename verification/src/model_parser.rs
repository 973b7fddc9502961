//! The parser: from a batch of documents to the model dictionary. A
//! document is an object that describes one entity, or a list of such
//! objects. Every such object is the root of a partition: it must carry its
//! identifier, and its `@context` member, where it reads
//! `dtmi:dtdl:context;N`, puts the partition under dialect `N`.
use vstd::prelude::*;
use crate::classify::{Scope, ScopeView};
use crate::dtmi::{dtmi_of_text, Dtmi};
use crate::entity::{entity_views, Entity, EntityView};
use crate::entity_kind::text_is;
use crate::error::{ErrorView, ParseError};
use crate::json_value::{lemma_object_view, member_views, JsonModel, JsonValue, Member};
use crate::members::{lemma_array_view, lookup, lookup_member, Members};
use crate::resolve::{resolution_fault, resolved_model, ModelDictionary};
use crate::standard::are_standard_schemas;
use crate::text::views;
use crate::walk::{classify_tree, tree_entities};

verus! {

/// The dialect that the `@context` member of a root gives, if it gives one.
pub open spec fn context_version(m: Members) -> Option<i32> {
    match lookup(m, "@context"@) {
        Some(JsonModel::String(t)) => match dtmi_of_text(t) {
            Some(v) => if v.labels == seq!["dtdl"@, "context"@] {
                Some(v.version as i32)
            } else {
                None
            },
            None => None,
        },
        _ => None,
    }
}

/// The scope of the root of a partition: its own identifier, no parent, and
/// the dialect of its `@context`, or else the dialect that the caller names.
pub open spec fn root_scope(m: Members, default_version: i32) -> Result<ScopeView, ErrorView> {
    match lookup(m, "@id"@) {
        Some(JsonModel::String(t)) => match dtmi_of_text(t) {
            Some(id) => Ok(
                ScopeView {
                    dtdl_version: match context_version(m) {
                        Some(version) => version,
                        None => default_version,
                    },
                    id,
                    child_of: None,
                    defined_in: None,
                    default_kind: None,
                    context: context_version(m) is Some,
                },
            ),
            None => Err(ErrorView::MalformedIdentifier { text: t }),
        },
        _ => Err(ErrorView::MalformedIdentifier { text: Seq::empty() }),
    }
}

/// The entities of one partition.
pub open spec fn root_entities(value: JsonModel, default_version: i32) -> Result<
    Seq<EntityView>,
    ErrorView,
> {
    match value {
        JsonModel::Object(m) => match root_scope(m, default_version) {
            Err(e) => Err(e),
            Ok(scope) => tree_entities(m, scope),
        },
        _ => Err(ErrorView::MalformedIdentifier { text: Seq::empty() }),
    }
}

/// The entities of the first `k` of the values, each the root of a
/// partition.
pub open spec fn roots_upto(items: Seq<JsonModel>, default_version: i32, k: nat) -> Result<
    Seq<EntityView>,
    ErrorView,
>
    decreases k,
{
    if k == 0 {
        Ok(Seq::empty())
    } else {
        match roots_upto(items, default_version, (k - 1) as nat) {
            Err(e) => Err(e),
            Ok(done) => match root_entities(items[k - 1], default_version) {
                Err(e) => Err(e),
                Ok(more) => Ok(done + more),
            },
        }
    }
}

/// The entities of one document: of its one root, or of each root in its
/// list.
pub open spec fn document_entities(document: JsonModel, default_version: i32) -> Result<
    Seq<EntityView>,
    ErrorView,
> {
    match document {
        JsonModel::Array(items) => roots_upto(items, default_version, items.len()),
        _ => root_entities(document, default_version),
    }
}

/// The entities of the first `k` documents, in order.
pub open spec fn documents_upto(documents: Seq<JsonModel>, default_version: i32, k: nat) -> Result<
    Seq<EntityView>,
    ErrorView,
>
    decreases k,
{
    if k == 0 {
        Ok(Seq::empty())
    } else {
        match documents_upto(documents, default_version, (k - 1) as nat) {
            Err(e) => Err(e),
            Ok(done) => match document_entities(documents[k - 1], default_version) {
                Err(e) => Err(e),
                Ok(more) => Ok(done + more),
            },
        }
    }
}

/// The entities of a batch of documents, in order.
pub open spec fn batch_entities(documents: Seq<JsonModel>, default_version: i32) -> Result<
    Seq<EntityView>,
    ErrorView,
> {
    documents_upto(documents, default_version, documents.len())
}

/// The documents as they are, in order.
pub open spec fn json_views(documents: Seq<JsonValue>) -> Seq<JsonModel> {
    documents.map_values(|d: JsonValue| d@)
}

/// Once a root cannot be classified, taking more roots into account
/// changes nothing.
pub proof fn lemma_roots_error(items: Seq<JsonModel>, default_version: i32, k1: nat, k2: nat)
    requires
        k1 <= k2,
        roots_upto(items, default_version, k1) is Err,
    ensures
        roots_upto(items, default_version, k2) == roots_upto(items, default_version, k1),
    decreases k2,
{
    if k1 < k2 {
        lemma_roots_error(items, default_version, k1, (k2 - 1) as nat);
    }
}

/// Once a document cannot be classified, taking more documents into
/// account changes nothing.
pub proof fn lemma_documents_error(
    documents: Seq<JsonModel>,
    default_version: i32,
    k1: nat,
    k2: nat,
)
    requires
        k1 <= k2,
        documents_upto(documents, default_version, k1) is Err,
    ensures
        documents_upto(documents, default_version, k2) == documents_upto(
            documents,
            default_version,
            k1,
        ),
    decreases k2,
{
    if k1 < k2 {
        lemma_documents_error(documents, default_version, k1, (k2 - 1) as nat);
    }
}

/// The dialect that the `@context` member of a root gives, if it gives one.
pub fn context_version_of(members: &Vec<Member>) -> (r: Option<i32>)
    ensures
        r == context_version(member_views(members@)),
{
    match lookup_member(members, "@context") {
        Some(value) => match value {
            JsonValue::String(t) => match Dtmi::parse(t.as_str()) {
                Ok(id) => {
                    proof {
                        use_type_invariant(&id);
                    }
                    let labels = id.labels();
                    if labels.len() == 2 && text_is(&labels[0], "dtdl") && text_is(
                        &labels[1],
                        "context",
                    ) {
                        assert(id@.labels =~= seq!["dtdl"@, "context"@]);
                        Some(id.version() as i32)
                    } else {
                        proof {
                            if id@.labels == seq!["dtdl"@, "context"@] {
                                assert(views(labels@)[0] == "dtdl"@);
                                assert(views(labels@)[1] == "context"@);
                            }
                        }
                        None
                    }
                },
                Err(_) => None,
            },
            _ => None,
        },
        None => None,
    }
}

/// The scope of the root of a partition.
pub fn root_scope_of(members: &Vec<Member>, default_version: i32) -> (r: Result<Scope, ParseError>)
    ensures
        match r {
            Ok(scope) => root_scope(member_views(members@), default_version) == Ok::<
                ScopeView,
                ErrorView,
            >(scope@),
            Err(e) => root_scope(member_views(members@), default_version) == Err::<
                ScopeView,
                ErrorView,
            >(e@),
        },
{
    let id = match lookup_member(members, "@id") {
        Some(value) => match value {
            JsonValue::String(t) => match Dtmi::parse(t.as_str()) {
                Ok(id) => id,
                Err(e) => {
                    return Err(ParseError::MalformedIdentifier { text: e.text });
                },
            },
            _ => {
                return Err(ParseError::MalformedIdentifier { text: String::new() });
            },
        },
        None => {
            return Err(ParseError::MalformedIdentifier { text: String::new() });
        },
    };
    let context = context_version_of(members);
    Ok(
        Scope {
            dtdl_version: match context {
                Some(version) => version,
                None => default_version,
            },
            id,
            child_of: None,
            defined_in: None,
            default_kind: None,
            context: context.is_some(),
        },
    )
}

/// Classifies one partition and adds its entities to `out`.
pub fn classify_root(value: &JsonValue, default_version: i32, out: &mut Vec<Entity>) -> (r: Result<
    (),
    ParseError,
>)
    ensures
        match r {
            Ok(_) => root_entities(value@, default_version) is Ok && entity_views(final(out)@)
                == entity_views(old(out)@) + root_entities(value@, default_version)->Ok_0,
            Err(e) => root_entities(value@, default_version) == Err::<Seq<EntityView>, ErrorView>(
                e@,
            ),
        },
{
    match value {
        JsonValue::Object(members) => {
            proof {
                lemma_object_view(*members);
            }
            match root_scope_of(members, default_version) {
                Err(e) => Err(e),
                Ok(scope) => classify_tree(members, scope, out),
            }
        },
        JsonValue::Array(items) => {
            proof {
                lemma_array_view(*items);
            }
            Err(ParseError::MalformedIdentifier { text: String::new() })
        },
        _ => Err(ParseError::MalformedIdentifier { text: String::new() }),
    }
}

/// Classifies one document and adds its entities to `out`.
pub fn classify_document(document: &JsonValue, default_version: i32, out: &mut Vec<Entity>) -> (r:
    Result<(), ParseError>)
    ensures
        match r {
            Ok(_) => document_entities(document@, default_version) is Ok && entity_views(
                final(out)@,
            ) == entity_views(old(out)@) + document_entities(document@, default_version)->Ok_0,
            Err(e) => document_entities(document@, default_version) == Err::<
                Seq<EntityView>,
                ErrorView,
            >(e@),
        },
{
    match document {
        JsonValue::Array(items) => {
            proof {
                lemma_array_view(*items);
            }
            let ghost roots = document@->Array_0;
            let ghost before = entity_views(out@);
            let mut k: usize = 0;
            assert(entity_views(out@) =~= before + Seq::<EntityView>::empty());
            while k < items.len()
                invariant
                    k <= items@.len(),
                    document@ is Array,
                    roots == document@->Array_0,
                    roots.len() == items@.len(),
                    forall|j: int| 0 <= j < items@.len() ==> (#[trigger] roots[j]) == items@[j]@,
                    roots_upto(roots, default_version, k as nat) is Ok,
                    entity_views(out@) == before + roots_upto(roots, default_version, k as nat)->Ok_0,
                decreases items@.len() - k,
            {
                let ghost done = roots_upto(roots, default_version, k as nat)->Ok_0;
                match classify_root(&items[k], default_version, out) {
                    Err(e) => {
                        proof {
                            assert(roots_upto(roots, default_version, (k + 1) as nat) == Err::<
                                Seq<EntityView>,
                                ErrorView,
                            >(e@));
                            lemma_roots_error(roots, default_version, (k + 1) as nat, roots.len());
                        }
                        return Err(e);
                    },
                    Ok(_) => {
                        proof {
                            let more = root_entities(roots[k as int], default_version)->Ok_0;
                            assert(entity_views(out@) =~= before + (done + more));
                        }
                    },
                }
                k += 1;
            }
            Ok(())
        },
        _ => classify_root(document, default_version, out),
    }
}

/// Classifies a batch of documents: every object that describes an entity,
/// at the top of a document or written in place inside another, becomes
/// one entity. The entities come in the order of the documents, each owner
/// before what is written inside it. `default_version` is the dialect of a
/// partition whose root names none. The error is that of the first object
/// that cannot be classified.
pub fn classify_documents(documents: &Vec<JsonValue>, default_version: i32) -> (r: Result<
    Vec<Entity>,
    ParseError,
>)
    ensures
        match r {
            Ok(entities) => batch_entities(json_views(documents@), default_version) == Ok::<
                Seq<EntityView>,
                ErrorView,
            >(entity_views(entities@)),
            Err(e) => batch_entities(json_views(documents@), default_version) == Err::<
                Seq<EntityView>,
                ErrorView,
            >(e@),
        },
{
    let mut out: Vec<Entity> = Vec::new();
    let ghost docs = json_views(documents@);
    let mut k: usize = 0;
    assert(entity_views(out@) =~= Seq::<EntityView>::empty());
    while k < documents.len()
        invariant
            k <= documents@.len(),
            docs == json_views(documents@),
            documents_upto(docs, default_version, k as nat) == Ok::<Seq<EntityView>, ErrorView>(
                entity_views(out@),
            ),
        decreases documents@.len() - k,
    {
        assert(docs[k as int] == documents@[k as int]@);
        match classify_document(&documents[k], default_version, &mut out) {
            Err(e) => {
                proof {
                    assert(documents_upto(docs, default_version, (k + 1) as nat) == Err::<
                        Seq<EntityView>,
                        ErrorView,
                    >(e@));
                    lemma_documents_error(docs, default_version, (k + 1) as nat, docs.len());
                }
                return Err(e);
            },
            Ok(_) => {},
        }
        k += 1;
    }
    Ok(out)
}

/// Parses a batch of documents into the model dictionary. Where the batch
/// cannot be classified, the error is that of classification. Otherwise
/// the classified entities are resolved: on success the dictionary holds
/// the primitive schemas followed by exactly those entities and is a
/// resolved model; on failure the error describes a fault of those
/// entities. No dictionary is handed out for a batch with a fault.
pub fn parse_model(documents: &Vec<JsonValue>, default_version: i32) -> (r: Result<
    ModelDictionary,
    ParseError,
>)
    ensures
        match batch_entities(json_views(documents@), default_version) {
            Err(fault) => r is Err && r->Err_0@ == fault,
            Ok(entities) => match r {
                Ok(d) => {
                    &&& are_standard_schemas(d.entities().take(10))
                    &&& entity_views(d.entities().skip(10)) == entities
                    &&& resolved_model(d.entities(), d.table())
                },
                Err(e) => exists|all: Seq<Entity>|
                    are_standard_schemas(all.take(10)) && entity_views(all.skip(10)) == entities
                        && #[trigger] resolution_fault(all, e),
            },
        },
{
    match classify_documents(documents, default_version) {
        Err(e) => Err(e),
        Ok(entities) => {
            let ghost batch = entities@;
            match ModelDictionary::resolve(entities) {
                Ok(d) => Ok(d),
                Err(e) => {
                    proof {
                        let standard = choose|standard: Seq<Entity>|
                            are_standard_schemas(standard) && #[trigger] resolution_fault(
                                standard + batch,
                                e,
                            );
                        let all = standard + batch;
                        assert(all.take(10) =~= standard);
                        assert(all.skip(10) =~= batch);
                    }
                    Err(e)
                },
            }
        },
    }
}

} // verus!
