//! The material instance table: maps every material fingerprint onto the
//! first material reference seen with it.
use crate::material::MaterialHash;
use std::collections::HashMap;
use vstd::prelude::*;

verus! {

broadcast use vstd::std_specs::hash::group_hash_axioms;

/// An entity that holds a material, as one consolidation pass sees it.
pub struct MaterialEntity<M> {
    /// Identity token of the material reference the entity holds.
    pub material: u64,
    /// The material's data, or `None` while its asset is still loading.
    pub params: Option<M>,
    /// Whether the entity carries the material dedup marker.
    pub marked: bool,
}

/// Canonical material per fingerprint, and how many duplicates were found.
pub struct MaterialInstances {
    instances: HashMap<u64, u64>,
    count: u64,
}

/// What one entity does to the table: `(canonical map, duplicates, entity)`
/// after it. A marked entity with loaded data is rewritten to the canonical
/// reference of its fingerprint if there is one, and registers its own
/// reference otherwise; either way its marker is cleared. Any other entity is
/// left as it is.
pub open spec fn material_step<M: MaterialHash>(
    canonical: Map<u64, u64>,
    duplicates: nat,
    e: MaterialEntity<M>,
) -> (Map<u64, u64>, nat, MaterialEntity<M>) {
    if e.marked && e.params is Some {
        let h = e.params->Some_0.fingerprint_spec();
        if canonical.contains_key(h) {
            (
                canonical,
                duplicates + 1,
                MaterialEntity { material: canonical[h], params: e.params, marked: false },
            )
        } else {
            (
                canonical.insert(h, e.material),
                duplicates,
                MaterialEntity { material: e.material, params: e.params, marked: false },
            )
        }
    } else {
        (canonical, duplicates, e)
    }
}

/// One pass over `es` in order, each entity seeing the table that the ones
/// before it left.
pub open spec fn material_pass<M: MaterialHash>(
    canonical: Map<u64, u64>,
    duplicates: nat,
    es: Seq<MaterialEntity<M>>,
) -> (Map<u64, u64>, nat, Seq<MaterialEntity<M>>)
    decreases es.len(),
{
    if es.len() == 0 {
        (canonical, duplicates, es)
    } else {
        let before = material_pass(canonical, duplicates, es.drop_last());
        let after = material_step(before.0, before.1, es.last());
        (after.0, after.1, before.2.push(after.2))
    }
}

/// Whether a pass over `es` processes at least one entity.
pub open spec fn processes_any<M>(es: Seq<MaterialEntity<M>>) -> bool {
    exists|i: int| 0 <= i < es.len() && #[trigger] es[i].marked && es[i].params is Some
}

impl MaterialInstances {
    /// Fingerprint to canonical material reference.
    pub closed spec fn canonical(&self) -> Map<u64, u64> {
        self.instances@
    }

    /// Duplicates found over all passes so far.
    pub closed spec fn duplicates(&self) -> nat {
        self.count as nat
    }

    /// An empty table.
    pub fn new() -> (r: Self)
        ensures
            r.canonical() == Map::<u64, u64>::empty(),
            r.duplicates() == 0,
    {
        MaterialInstances { instances: HashMap::new(), count: 0 }
    }

    /// Duplicate material instances found so far.
    pub fn duplicate_count(&self) -> (r: u64)
        ensures
            r == self.duplicates(),
    {
        self.count
    }

    /// Total unique materials known.
    pub fn unique_count(&self) -> (r: usize)
        ensures
            r == self.canonical().len(),
    {
        self.instances.len()
    }

    /// The canonical material reference registered for fingerprint `h`.
    pub fn canonical_for(&self, h: u64) -> (r: Option<u64>)
        ensures
            r == (if self.canonical().contains_key(h) {
                Some(self.canonical()[h])
            } else {
                None::<u64>
            }),
    {
        match self.instances.get(&h) {
            Some(c) => Some(*c),
            None => None,
        }
    }
}

/// Runs one consolidation pass over `entities`, in order. Returns whether any
/// entity was processed, in which case a summary of the table is due.
pub fn consolidate_material_instances<M: MaterialHash>(
    instances: &mut MaterialInstances,
    entities: &mut Vec<MaterialEntity<M>>,
) -> (processed: bool)
    requires
        old(instances).duplicates() + old(entities).len() <= u64::MAX,
    ensures
        ({
            let r = material_pass(
                old(instances).canonical(),
                old(instances).duplicates(),
                old(entities)@,
            );
            &&& final(instances).canonical() == r.0
            &&& final(instances).duplicates() == r.1
            &&& final(entities)@ == r.2
        }),
        processed == processes_any(old(entities)@),
{
    let ghost canonical0 = instances.canonical();
    let ghost duplicates0 = instances.duplicates();
    let ghost es0 = entities@;
    let mut processed = false;
    let mut i: usize = 0;
    while i < entities.len()
        invariant
            0 <= i <= entities.len(),
            entities.len() == es0.len(),
            duplicates0 + es0.len() <= u64::MAX,
            instances.duplicates() <= duplicates0 + i,
            material_pass(canonical0, duplicates0, es0.take(i as int)) == (
                instances.canonical(),
                instances.duplicates(),
                entities@.take(i as int),
            ),
            forall|j: int| i <= j < es0.len() ==> entities@[j] == es0[j],
            processed == exists|j: int|
                0 <= j < i && #[trigger] es0[j].marked && es0[j].params is Some,
        decreases entities.len() - i,
    {
        proof {
            assert(es0.take(i as int + 1).drop_last() =~= es0.take(i as int));
            assert(es0.take(i as int + 1).last() == es0[i as int]);
        }
        let ghost before = entities@;
        if entities[i].marked {
            let h_opt: Option<u64> = match &entities[i].params {
                Some(p) => Some(p.generate_hash()),
                None => None,
            };
            if let Some(h) = h_opt {
                processed = true;
                match instances.instances.get(&h) {
                    Some(c) => {
                        let c = *c;
                        entities[i].material = c;
                        instances.count = instances.count + 1;
                    },
                    None => {
                        let m = entities[i].material;
                        instances.instances.insert(h, m);
                    },
                }
                entities[i].marked = false;
            }
        }
        proof {
            assert(entities@.take(i as int + 1) =~= before.take(i as int).push(entities@[i as int]));
        }
        i += 1;
    }
    proof {
        assert(es0.take(es0.len() as int) =~= es0);
        assert(entities@.take(es0.len() as int) =~= entities@);
    }
    processed
}

/// Whether a pass leaves `e` as it is: it carries no marker, or its data has
/// not loaded yet.
pub open spec fn is_settled<M>(e: MaterialEntity<M>) -> bool {
    !e.marked || e.params is None
}

proof fn lemma_pass_settles<M: MaterialHash>(
    canonical: Map<u64, u64>,
    duplicates: nat,
    es: Seq<MaterialEntity<M>>,
)
    ensures
        material_pass(canonical, duplicates, es).2.len() == es.len(),
        forall|i: int|
            0 <= i < es.len() ==> is_settled(#[trigger] material_pass(canonical, duplicates, es).2[i]),
    decreases es.len(),
{
    if es.len() > 0 {
        lemma_pass_settles(canonical, duplicates, es.drop_last());
    }
}

proof fn lemma_pass_over_settled<M: MaterialHash>(
    canonical: Map<u64, u64>,
    duplicates: nat,
    es: Seq<MaterialEntity<M>>,
)
    requires
        forall|i: int| 0 <= i < es.len() ==> is_settled(#[trigger] es[i]),
    ensures
        material_pass(canonical, duplicates, es) == (canonical, duplicates, es),
    decreases es.len(),
{
    if es.len() > 0 {
        let prefix = es.drop_last();
        assert forall|i: int| 0 <= i < prefix.len() implies is_settled(#[trigger] prefix[i]) by {
            assert(prefix[i] == es[i]);
        }
        lemma_pass_over_settled(canonical, duplicates, prefix);
        assert(is_settled(es[es.len() - 1]));
        assert(prefix.push(es.last()) =~= es);
    }
}

/// A second consolidation pass over what a first pass left changes nothing:
/// the table, the duplicate count and every entity stay as they are.
pub proof fn lemma_consolidate_materials_idempotent<M: MaterialHash>(
    canonical: Map<u64, u64>,
    duplicates: nat,
    es: Seq<MaterialEntity<M>>,
)
    ensures
        ({
            let first = material_pass(canonical, duplicates, es);
            material_pass(first.0, first.1, first.2) == first
        }),
{
    let first = material_pass(canonical, duplicates, es);
    lemma_pass_settles(canonical, duplicates, es);
    lemma_pass_over_settled(first.0, first.1, first.2);
}

/// Among marked entities with loaded data and one common fingerprint `h` that
/// the table does not know yet, the first one becomes canonical: every entity
/// ends up referencing its material, and each later one counts as a duplicate.
pub proof fn lemma_first_seen_is_canonical<M: MaterialHash>(
    canonical: Map<u64, u64>,
    duplicates: nat,
    es: Seq<MaterialEntity<M>>,
    h: u64,
)
    requires
        es.len() > 0,
        !canonical.contains_key(h),
        forall|i: int|
            0 <= i < es.len() ==> (#[trigger] es[i]).marked && es[i].params is Some
                && es[i].params->Some_0.fingerprint_spec() == h,
    ensures
        ({
            let r = material_pass(canonical, duplicates, es);
            &&& r.0 == canonical.insert(h, es[0].material)
            &&& r.1 == duplicates + es.len() - 1
            &&& r.2.len() == es.len()
            &&& forall|i: int| 0 <= i < es.len() ==> (#[trigger] r.2[i]).material == es[0].material
        }),
    decreases es.len(),
{
    let prefix = es.drop_last();
    if prefix.len() == 0 {
        assert(es.last() == es[0]);
        assert(material_pass(canonical, duplicates, prefix) == (canonical, duplicates, prefix));
    } else {
        assert forall|i: int|
            0 <= i < prefix.len() implies (#[trigger] prefix[i]).marked && prefix[i].params is Some
            && prefix[i].params->Some_0.fingerprint_spec() == h by {
            assert(prefix[i] == es[i]);
        }
        lemma_first_seen_is_canonical(canonical, duplicates, prefix, h);
        assert(prefix[0] == es[0]);
        let before = material_pass(canonical, duplicates, prefix);
        assert(es.last() == es[es.len() - 1]);
        assert(before.0.contains_key(h));
        let r = material_pass(canonical, duplicates, es);
        assert forall|i: int| 0 <= i < es.len() implies (#[trigger] r.2[i]).material
            == es[0].material by {
            if i < prefix.len() {
                assert(r.2[i] == before.2[i]);
            }
        }
    }
}

} // verus!
