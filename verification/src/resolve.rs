//! The resolution engine: from a batch of classified entities to the model
//! dictionary, or to the first fault found. The primitive schemas are put
//! in front of the batch; then identifiers are registered, references are
//! linked, extensions are ordered and content sets are merged. A fault at
//! any step ends the batch and no dictionary is handed out.
use vstd::prelude::*;
use crate::contents::{compute_contents, contents_of, contents_resolved, entry_ok, name_fault};
use crate::dtmi::{Dtmi, DtmiView};
use crate::entity::{
    content_views, distinct_ids, find_entity, has_entity, position_of, ContentRef, Entity,
};
use crate::entity_kind::EntityKind;
use crate::error::ParseError;
use crate::extension::{acyclic_extension, dtmi_views, extension_order, is_cycle, ordered};
use crate::links::{
    check_distinct, check_links, duplicate_fault, is_duplicate, link_fault, linked,
};
use crate::standard::{are_standard_schemas, standard_schemas};

verus! {

/// Whether the entities with their content sets make a resolved model: no
/// identifier is used twice, every reference leads to an entity of the
/// expected kind, every chain of parents ends at a root, no extensions run
/// in a circle, and every content set is complete with no name twice.
pub open spec fn resolved_model(all: Seq<Entity>, table: Seq<Vec<ContentRef>>) -> bool {
    &&& distinct_ids(all)
    &&& linked(all)
    &&& acyclic_extension(all)
    &&& contents_resolved(all, table)
}

/// Whether `e` describes a fault that the entities really have.
pub open spec fn resolution_fault(all: Seq<Entity>, e: ParseError) -> bool {
    match e {
        ParseError::DuplicateIdentifier { id } => duplicate_fault(all, id@),
        ParseError::CyclicExtension { cycle } => distinct_ids(all) && linked(all) && is_cycle(
            all,
            dtmi_views(cycle@),
        ),
        ParseError::DuplicateContentName { .. } => distinct_ids(all) && linked(all)
            && acyclic_extension(all) && name_fault(all, e),
        _ => distinct_ids(all) && link_fault(all, e@),
    }
}

/// The resolved model: every entity of a batch, and the ten primitive
/// schemas, each under its identifier.
pub struct ModelDictionary {
    entities: Vec<Entity>,
    contents: Vec<Vec<ContentRef>>,
}

/// Runs the steps of resolution on the full list of entities.
fn resolve_all(all: &Vec<Entity>) -> (r: Result<Vec<Vec<ContentRef>>, ParseError>)
    ensures
        match r {
            Ok(table) => resolved_model(all@, table@),
            Err(e) => resolution_fault(all@, e),
        },
{
    match check_distinct(all) {
        Err(e) => {
            return Err(e);
        },
        Ok(_) => {},
    }
    match check_links(all) {
        Err(e) => {
            return Err(e);
        },
        Ok(_) => {},
    }
    let order = match extension_order(all) {
        Err(e) => {
            return Err(e);
        },
        Ok(order) => order,
    };
    assert(acyclic_extension(all@)) by {
        assert(ordered(all@, order.order@, order.rank@));
    }
    match compute_contents(all, &order) {
        Err(e) => Err(e),
        Ok(table) => Ok(table),
    }
}

impl ModelDictionary {
    /// A dictionary always holds a resolved model.
    #[verifier::type_invariant]
    pub closed spec fn well_formed(self) -> bool {
        resolved_model(self.entities@, self.contents@)
    }

    /// The entities of the dictionary: the ten primitive schemas, then the
    /// entities of the batch in their order.
    pub closed spec fn entities(&self) -> Seq<Entity> {
        self.entities@
    }

    /// The content set of each entity, by position.
    pub closed spec fn table(&self) -> Seq<Vec<ContentRef>> {
        self.contents@
    }

    /// Resolves a batch of classified entities. On success the dictionary
    /// holds the primitive schemas followed by the batch, unchanged, and is
    /// a resolved model. On failure the error describes a fault of the
    /// batch (taken together with the primitive schemas): an identifier
    /// used twice; otherwise a reference that does not resolve; otherwise a
    /// circle of extensions; otherwise a name that occurs twice in a
    /// content set.
    pub fn resolve(entities: Vec<Entity>) -> (r: Result<ModelDictionary, ParseError>)
        ensures
            match r {
                Ok(d) => {
                    &&& d.entities().len() == 10 + entities@.len()
                    &&& are_standard_schemas(d.entities().take(10))
                    &&& d.entities().skip(10) == entities@
                    &&& resolved_model(d.entities(), d.table())
                },
                Err(e) => exists|standard: Seq<Entity>|
                    are_standard_schemas(standard) && #[trigger] resolution_fault(
                        standard + entities@,
                        e,
                    ),
            },
            (exists|id: DtmiView| is_duplicate(entities@, id)) ==> r matches Err(
                ParseError::DuplicateIdentifier { .. },
            ),
    {
        let mut batch = entities;
        let mut all: Vec<Entity> = standard_schemas();
        let ghost standard = all@;
        all.append(&mut batch);
        assert(all@ == standard + entities@);
        proof {
            if exists|id: DtmiView| is_duplicate(entities@, id) {
                let id = choose|id: DtmiView| is_duplicate(entities@, id);
                let (i, j) = choose|i: int, j: int|
                    0 <= i < j < entities@.len() && (#[trigger] entities@[i]).id@ == id && (
                    #[trigger] entities@[j]).id@ == id;
                assert(all@[10 + i] == entities@[i]);
                assert(all@[10 + j] == entities@[j]);
                assert(all@[10 + i].id@ == all@[10 + j].id@);
                assert(!distinct_ids(all@));
            }
        }
        match resolve_all(&all) {
            Err(e) => {
                assert(resolution_fault(standard + entities@, e));
                Err(e)
            },
            Ok(contents) => {
                proof {
                    assert(all@.take(10) =~= standard);
                    assert(all@.skip(10) =~= entities@);
                }
                Ok(ModelDictionary { entities: all, contents })
            },
        }
    }

    /// What holds of every dictionary.
    pub fn check_resolved(&self)
        ensures
            resolved_model(self.entities(), self.table()),
    {
        proof {
            use_type_invariant(self);
        }
    }

    /// How many entities the dictionary holds.
    pub fn len(&self) -> (n: usize)
        ensures
            n == self.entities().len(),
    {
        self.entities.len()
    }

    /// The entity at position `i`.
    pub fn entity_at(&self, i: usize) -> (e: &Entity)
        requires
            i < self.entities().len(),
        ensures
            *e == self.entities()[i as int],
    {
        &self.entities[i]
    }

    /// The position of the entity with identifier `id`, if there is one.
    pub fn position(&self, id: &Dtmi) -> (r: Option<usize>)
        ensures
            match r {
                Some(i) => i < self.entities().len() && i == position_of(self.entities(), id@)
                    && self.entities()[i as int].id@ == id@,
                None => !has_entity(self.entities(), id@),
            },
    {
        find_entity(&self.entities, id)
    }

    /// The entity with identifier `id`, if there is one.
    pub fn get(&self, id: &Dtmi) -> (r: Option<&Entity>)
        ensures
            match r {
                Some(e) => has_entity(self.entities(), id@) && *e == self.entities()[position_of(
                    self.entities(),
                    id@,
                ) as int] && e.id@ == id@,
                None => !has_entity(self.entities(), id@),
            },
    {
        match find_entity(&self.entities, id) {
            Some(i) => Some(&self.entities[i]),
            None => None,
        }
    }

    /// The content set of the entity with identifier `id`: its own named
    /// elements and those it inherits, with no name twice.
    pub fn contents(&self, id: &Dtmi) -> (r: Option<&Vec<ContentRef>>)
        ensures
            match r {
                Some(c) => has_entity(self.entities(), id@) && content_views(c@) == contents_of(
                    self.entities(),
                    position_of(self.entities(), id@) as int,
                ) && *c == self.table()[position_of(self.entities(), id@) as int],
                None => !has_entity(self.entities(), id@),
            },
    {
        proof {
            use_type_invariant(self);
        }
        match find_entity(&self.entities, id) {
            Some(i) => {
                assert(entry_ok(self.entities@, self.contents@, i as int));
                Some(&self.contents[i])
            },
            None => None,
        }
    }

    /// The positions of the entities of kind `kind`, in rising order.
    pub fn positions_of_kind(&self, kind: EntityKind) -> (r: Vec<usize>)
        ensures
            forall|k: int|
                0 <= k < r@.len() ==> (#[trigger] r@[k]) < self.entities().len()
                    && self.entities()[r@[k] as int].kind == kind,
            forall|a: int, b: int| 0 <= a < b < r@.len() ==> r@[a] < r@[b],
            forall|i: int|
                0 <= i < self.entities().len() && (#[trigger] self.entities()[i]).kind == kind
                    ==> r@.contains(i as usize),
    {
        let mut r: Vec<usize> = Vec::new();
        let mut i: usize = 0;
        while i < self.entities.len()
            invariant
                i <= self.entities@.len(),
                forall|k: int|
                    0 <= k < r@.len() ==> (#[trigger] r@[k]) < i && self.entities@[r@[k] as int].kind
                        == kind,
                forall|a: int, b: int| 0 <= a < b < r@.len() ==> r@[a] < r@[b],
                forall|j: int|
                    0 <= j < i && (#[trigger] self.entities@[j]).kind == kind ==> r@.contains(
                        j as usize,
                    ),
            decreases self.entities@.len() - i,
        {
            if self.entities[i].kind == kind {
                let ghost before = r@;
                r.push(i);
                proof {
                    assert(r@[before.len() as int] == i);
                    assert forall|j: int|
                        0 <= j < i + 1 && (#[trigger] self.entities@[j]).kind
                            == kind implies r@.contains(j as usize) by {
                        if j < i {
                            assert(before.contains(j as usize));
                            let w = choose|w: int| 0 <= w < before.len() && before[w] == j as usize;
                            assert(r@[w] == j as usize);
                        }
                    }
                }
            }
            i += 1;
        }
        r
    }
}

} // verus!
