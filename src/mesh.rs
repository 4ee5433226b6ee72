//! The mesh instance table: groups meshes by a structural fingerprint and,
//! within a group, matches them by the mean distance of their vertices from
//! the first vertex. A matched mesh becomes an instance of the canonical mesh,
//! moved by the offset between the two centroids.
use crate::fingerprint::{digest, digest_words};
use crate::geometry::{
    all_in_range, avg_dist_of, avg_distances_from_first_vert, first_vert_of, get_midpoint,
    in_range, midpoint_of, zero_vec, Aabb, FixedVec3,
};
use std::collections::HashMap;
use vstd::prelude::*;

verus! {

broadcast use vstd::std_specs::hash::group_hash_axioms;

/// Two meshes match when their mean vertex distances differ by less than this
/// many fixed-point units (a thousandth of a scene unit).
pub const MATCH_TOLERANCE: u64 = 1000;

/// One vertex attribute of a mesh: its identifying tag and its size in bytes.
#[derive(Clone, Copy, Debug, PartialEq, Eq, Structural)]
pub struct AttributeLayout {
    pub id: u64,
    pub byte_len: u64,
}

/// What the table reads of a loaded mesh.
pub struct MeshGeometry {
    pub attributes: Vec<AttributeLayout>,
    /// Vertex positions, or `None` where the mesh has no three-component
    /// position attribute.
    pub positions: Option<Vec<FixedVec3>>,
}

/// The statistics kept of a mesh.
#[derive(Clone, Copy, Debug, PartialEq, Eq, Structural)]
pub struct MeshStats {
    pub midpoint: FixedVec3,
    pub first_vert: FixedVec3,
    pub avg_vert_dist: u64,
}

/// A canonical mesh and its statistics, as registered in the table.
#[derive(Clone, Copy, Debug, PartialEq, Eq, Structural)]
pub struct MeshData {
    pub handle: u64,
    pub midpoint: FixedVec3,
    pub first_vert: FixedVec3,
    pub aabb: Aabb,
    pub avg_vert_dist: u64,
}

/// An entity that holds a mesh, as one consolidation pass sees it.
pub struct MeshEntity {
    /// Identity token of the mesh reference the entity holds.
    pub mesh: u64,
    /// The mesh's data, or `None` while its asset is still loading.
    pub geometry: Option<MeshGeometry>,
    pub aabb: Aabb,
    /// The translation that replaced the entity's transform (no rotation, unit
    /// scale), if the table rewrote it.
    pub placement: Option<FixedVec3>,
    /// Whether the entity carries the mesh dedup marker.
    pub marked: bool,
}

pub open spec fn layout_words(attrs: Seq<AttributeLayout>) -> Seq<u64>
    decreases attrs.len(),
{
    if attrs.len() == 0 {
        Seq::empty()
    } else {
        layout_words(attrs.drop_last()) + seq![attrs.last().id, attrs.last().byte_len]
    }
}

/// The words of the structural fingerprint: the attribute count, then each
/// attribute's tag and byte length.
pub open spec fn structure_words(attrs: Seq<AttributeLayout>) -> Seq<u64> {
    seq![attrs.len() as u64] + layout_words(attrs)
}

pub open spec fn structural_fingerprint(attrs: Seq<AttributeLayout>) -> u64 {
    digest(structure_words(attrs))
}

pub open spec fn positions_in_range(g: MeshGeometry) -> bool {
    match g.positions {
        Some(v) => all_in_range(v@),
        None => true,
    }
}

/// The statistics of a mesh; all zero where it has no positions.
pub open spec fn stats_of(g: MeshGeometry) -> MeshStats {
    match g.positions {
        Some(v) => MeshStats {
            midpoint: midpoint_of(v@),
            first_vert: first_vert_of(v@),
            avg_vert_dist: avg_dist_of(v@) as u64,
        },
        None => MeshStats { midpoint: zero_vec(), first_vert: zero_vec(), avg_vert_dist: 0 },
    }
}

pub open spec fn within_tolerance(a: u64, b: u64) -> bool {
    -(MATCH_TOLERANCE as int) < a - b < MATCH_TOLERANCE as int
}

/// `k` is the first record of `recs` that matches `avg`.
pub open spec fn is_first_match(recs: Seq<MeshData>, avg: u64, k: int) -> bool {
    &&& 0 <= k < recs.len()
    &&& within_tolerance(recs[k].avg_vert_dist, avg)
    &&& forall|j: int| 0 <= j < k ==> !within_tolerance(#[trigger] recs[j].avg_vert_dist, avg)
}

pub open spec fn first_match(recs: Seq<MeshData>, avg: u64) -> Option<int> {
    if exists|k: int| is_first_match(recs, avg, k) {
        Some(choose|k: int| is_first_match(recs, avg, k))
    } else {
        None
    }
}

pub open spec fn sub_vec(a: FixedVec3, b: FixedVec3) -> FixedVec3 {
    FixedVec3 { x: (a.x - b.x) as i64, y: (a.y - b.y) as i64, z: (a.z - b.z) as i64 }
}

/// A bucket holds at least one record, every midpoint in range, and no two
/// records whose mean vertex distances match.
pub open spec fn bucket_wf(recs: Seq<MeshData>) -> bool {
    &&& recs.len() > 0
    &&& forall|i: int| 0 <= i < recs.len() ==> in_range(#[trigger] recs[i].midpoint)
    &&& forall|i: int, j: int|
        0 <= i < j < recs.len() ==> !within_tolerance(
            #[trigger] recs[i].avg_vert_dist,
            #[trigger] recs[j].avg_vert_dist,
        )
}

pub open spec fn buckets_wf(buckets: Map<u64, Seq<MeshData>>) -> bool {
    forall|h: u64| #[trigger] buckets.contains_key(h) ==> bucket_wf(buckets[h])
}

/// What one entity does to the table: `(buckets, duplicates, entity)` after
/// it. A marked entity with loaded data is fingerprinted; with no bucket for
/// its fingerprint it opens one, and it becomes an instance of the first
/// matching record of its bucket if there is one, and is appended to the
/// bucket otherwise. Either way its marker is cleared. Any other entity is
/// left as it is.
pub open spec fn mesh_step(
    buckets: Map<u64, Seq<MeshData>>,
    duplicates: nat,
    e: MeshEntity,
) -> (Map<u64, Seq<MeshData>>, nat, MeshEntity) {
    if e.marked && e.geometry is Some {
        let g = e.geometry->Some_0;
        let h = structural_fingerprint(g.attributes@);
        let st = stats_of(g);
        let fresh = MeshData {
            handle: e.mesh,
            midpoint: st.midpoint,
            first_vert: st.first_vert,
            aabb: e.aabb,
            avg_vert_dist: st.avg_vert_dist,
        };
        let cleared = MeshEntity {
            mesh: e.mesh,
            geometry: e.geometry,
            aabb: e.aabb,
            placement: e.placement,
            marked: false,
        };
        if !buckets.contains_key(h) {
            (buckets.insert(h, seq![fresh]), duplicates, cleared)
        } else {
            match first_match(buckets[h], st.avg_vert_dist) {
                Some(k) => {
                    let rec = buckets[h][k];
                    (
                        buckets,
                        duplicates + 1,
                        MeshEntity {
                            mesh: rec.handle,
                            geometry: e.geometry,
                            aabb: rec.aabb,
                            placement: Some(sub_vec(st.midpoint, rec.midpoint)),
                            marked: false,
                        },
                    )
                },
                None => (buckets.insert(h, buckets[h].push(fresh)), duplicates, cleared),
            }
        }
    } else {
        (buckets, duplicates, e)
    }
}

/// One pass over `es` in order, each entity seeing the table that the ones
/// before it left.
pub open spec fn mesh_pass(
    buckets: Map<u64, Seq<MeshData>>,
    duplicates: nat,
    es: Seq<MeshEntity>,
) -> (Map<u64, Seq<MeshData>>, nat, Seq<MeshEntity>)
    decreases es.len(),
{
    if es.len() == 0 {
        (buckets, duplicates, es)
    } else {
        let before = mesh_pass(buckets, duplicates, es.drop_last());
        let after = mesh_step(before.0, before.1, es.last());
        (after.0, after.1, before.2.push(after.2))
    }
}

pub open spec fn entity_in_range(e: MeshEntity) -> bool {
    match e.geometry {
        Some(g) => positions_in_range(g),
        None => true,
    }
}

/// Whether a pass over `es` processes at least one entity.
pub open spec fn processes_any_mesh(es: Seq<MeshEntity>) -> bool {
    exists|i: int| 0 <= i < es.len() && #[trigger] es[i].marked && es[i].geometry is Some
}

/// The structural fingerprint of a mesh's attribute layout.
pub fn mesh_fingerprint(attrs: &Vec<AttributeLayout>) -> (r: u64)
    ensures
        r == structural_fingerprint(attrs@),
{
    let mut words: Vec<u64> = Vec::new();
    words.push(attrs.len() as u64);
    let mut i: usize = 0;
    while i < attrs.len()
        invariant
            i <= attrs.len(),
            words@ == seq![attrs@.len() as u64] + layout_words(attrs@.take(i as int)),
        decreases attrs.len() - i,
    {
        let a = attrs[i];
        proof {
            assert(attrs@.take(i as int + 1).drop_last() =~= attrs@.take(i as int));
            assert(attrs@.take(i as int + 1).last() == a);
        }
        words.push(a.id);
        words.push(a.byte_len);
        assert(words@ =~= seq![attrs@.len() as u64] + layout_words(attrs@.take(i as int + 1)));
        i += 1;
    }
    assert(attrs@.take(attrs.len() as int) =~= attrs@);
    digest_words(&words)
}

/// The statistics of a loaded mesh.
pub fn mesh_stats(g: &MeshGeometry) -> (r: MeshStats)
    requires
        positions_in_range(*g),
    ensures
        r == stats_of(*g),
        in_range(r.midpoint),
{
    match &g.positions {
        Some(v) => {
            let (first_vert, avg_vert_dist) = avg_distances_from_first_vert(v);
            let midpoint = get_midpoint(v);
            MeshStats { midpoint, first_vert, avg_vert_dist }
        },
        None => MeshStats {
            midpoint: FixedVec3 { x: 0, y: 0, z: 0 },
            first_vert: FixedVec3 { x: 0, y: 0, z: 0 },
            avg_vert_dist: 0,
        },
    }
}

pub fn is_within_tolerance(a: u64, b: u64) -> (r: bool)
    ensures
        r == within_tolerance(a, b),
{
    if a >= b {
        a - b < MATCH_TOLERANCE
    } else {
        b - a < MATCH_TOLERANCE
    }
}

/// The first record of `recs` whose mean vertex distance matches `avg`.
pub fn find_match(recs: &Vec<MeshData>, avg: u64) -> (r: Option<usize>)
    ensures
        match r {
            Some(k) => first_match(recs@, avg) == Some(k as int),
            None => first_match(recs@, avg) is None,
        },
        r is None ==> forall|j: int|
            0 <= j < recs@.len() ==> !within_tolerance(#[trigger] recs@[j].avg_vert_dist, avg),
{
    let mut j: usize = 0;
    while j < recs.len()
        invariant
            j <= recs.len(),
            forall|i: int| 0 <= i < j ==> !within_tolerance(#[trigger] recs@[i].avg_vert_dist, avg),
        decreases recs.len() - j,
    {
        if is_within_tolerance(recs[j].avg_vert_dist, avg) {
            assert(is_first_match(recs@, avg, j as int));
            assert forall|k: int| is_first_match(recs@, avg, k) implies k == j by {
                if k < j {
                    assert(!within_tolerance(recs@[k].avg_vert_dist, avg));
                } else if k > j {
                    assert(!within_tolerance(recs@[j as int].avg_vert_dist, avg));
                }
            }
            return Some(j);
        }
        j += 1;
    }
    assert forall|k: int| !is_first_match(recs@, avg, k) by {
        if 0 <= k < recs@.len() {
            assert(!within_tolerance(recs@[k].avg_vert_dist, avg));
        }
    }
    None
}

/// The offset from `b` to `a`.
pub fn offset_between(a: FixedVec3, b: FixedVec3) -> (r: FixedVec3)
    requires
        in_range(a),
        in_range(b),
    ensures
        r == sub_vec(a, b),
{
    FixedVec3 { x: a.x - b.x, y: a.y - b.y, z: a.z - b.z }
}

/// Canonical mesh records per structural fingerprint, and how many
/// duplicates were found.
pub struct MeshInstances {
    instances: HashMap<u64, Vec<MeshData>>,
    count: u64,
}

impl MeshInstances {
    /// Structural fingerprint to its records, in the order they were added.
    pub closed spec fn buckets(&self) -> Map<u64, Seq<MeshData>> {
        self.instances@.map_values(|v: Vec<MeshData>| v@)
    }

    /// Duplicates found over all passes so far.
    pub closed spec fn duplicates(&self) -> nat {
        self.count as nat
    }

    pub open spec fn wf(&self) -> bool {
        buckets_wf(self.buckets())
    }

    /// An empty table.
    pub fn new() -> (r: Self)
        ensures
            r.buckets() == Map::<u64, Seq<MeshData>>::empty(),
            r.duplicates() == 0,
            r.wf(),
    {
        let r = MeshInstances { instances: HashMap::new(), count: 0 };
        assert(r.buckets() =~= Map::<u64, Seq<MeshData>>::empty());
        r
    }

    /// Duplicate mesh instances found so far.
    pub fn duplicate_count(&self) -> (r: u64)
        ensures
            r == self.duplicates(),
    {
        self.count
    }

    /// Total unique meshes: the number of structural fingerprints known.
    pub fn unique_count(&self) -> (r: usize)
        ensures
            r == self.buckets().len(),
    {
        assert(self.buckets().dom() =~= self.instances@.dom());
        self.instances.len()
    }

    /// The records registered under structural fingerprint `h`.
    pub fn records_for(&self, h: u64) -> (r: Vec<MeshData>)
        ensures
            r@ == (if self.buckets().contains_key(h) {
                self.buckets()[h]
            } else {
                Seq::empty()
            }),
    {
        match self.instances.get(&h) {
            Some(v) => v.clone(),
            None => Vec::new(),
        }
    }
}

/// Runs one consolidation pass over `entities`, in order. Returns whether any
/// entity was processed, in which case a summary of the table is due.
pub fn consolidate_mesh_instances(
    instances: &mut MeshInstances,
    entities: &mut Vec<MeshEntity>,
) -> (processed: bool)
    requires
        old(instances).wf(),
        old(instances).duplicates() + old(entities).len() <= u64::MAX,
        forall|i: int| 0 <= i < old(entities).len() ==> entity_in_range(#[trigger] old(entities)@[i]),
    ensures
        final(instances).wf(),
        ({
            let r = mesh_pass(old(instances).buckets(), old(instances).duplicates(), old(entities)@);
            &&& final(instances).buckets() == r.0
            &&& final(instances).duplicates() == r.1
            &&& final(entities)@ == r.2
        }),
        processed == processes_any_mesh(old(entities)@),
{
    let ghost buckets0 = instances.buckets();
    let ghost duplicates0 = instances.duplicates();
    let ghost es0 = entities@;
    let mut processed = false;
    let mut i: usize = 0;
    while i < entities.len()
        invariant
            0 <= i <= entities.len(),
            entities.len() == es0.len(),
            duplicates0 + es0.len() <= u64::MAX,
            instances.duplicates() <= duplicates0 + i,
            instances.wf(),
            forall|j: int| 0 <= j < es0.len() ==> entity_in_range(#[trigger] es0[j]),
            mesh_pass(buckets0, duplicates0, es0.take(i as int)) == (
                instances.buckets(),
                instances.duplicates(),
                entities@.take(i as int),
            ),
            forall|j: int| i <= j < es0.len() ==> entities@[j] == es0[j],
            processed == exists|j: int|
                0 <= j < i && #[trigger] es0[j].marked && es0[j].geometry is Some,
        decreases entities.len() - i,
    {
        proof {
            assert(es0.take(i as int + 1).drop_last() =~= es0.take(i as int));
            assert(es0.take(i as int + 1).last() == es0[i as int]);
            assert(entity_in_range(es0[i as int]));
        }
        let ghost before = entities@;
        let ghost b_before = instances.buckets();
        if entities[i].marked {
            let info: Option<(u64, MeshStats)> = match &entities[i].geometry {
                Some(g) => Some((mesh_fingerprint(&g.attributes), mesh_stats(g))),
                None => None,
            };
            if let Some((h, st)) = info {
                processed = true;
                let fresh = MeshData {
                    handle: entities[i].mesh,
                    midpoint: st.midpoint,
                    first_vert: st.first_vert,
                    aabb: entities[i].aabb,
                    avg_vert_dist: st.avg_vert_dist,
                };
                match instances.instances.remove(&h) {
                    None => {
                        let mut v: Vec<MeshData> = Vec::new();
                        v.push(fresh);
                        instances.instances.insert(h, v);
                        proof {
                            assert(instances.buckets() =~= b_before.insert(h, seq![fresh]));
                            assert(bucket_wf(seq![fresh]));
                        }
                    },
                    Some(recs) => {
                        let mut recs = recs;
                        assert(b_before.contains_key(h));
                        assert(recs@ == b_before[h]);
                        assert(bucket_wf(b_before[h]));
                        match find_match(&recs, st.avg_vert_dist) {
                            Some(k) => {
                                assert(is_first_match(recs@, st.avg_vert_dist, k as int));
                                let rec = recs[k];
                                assert(in_range(b_before[h][k as int].midpoint));
                                entities[i].mesh = rec.handle;
                                entities[i].aabb = rec.aabb;
                                entities[i].placement = Some(offset_between(st.midpoint, rec.midpoint));
                                instances.count = instances.count + 1;
                            },
                            None => {
                                recs.push(fresh);
                                proof {
                                    let old_recs = b_before[h];
                                    let new_recs = old_recs.push(fresh);
                                    assert(recs@ == new_recs);
                                    assert forall|a: int, b: int|
                                        0 <= a < b < new_recs.len() implies !within_tolerance(
                                        #[trigger] new_recs[a].avg_vert_dist,
                                        #[trigger] new_recs[b].avg_vert_dist,
                                    ) by {
                                        if b == old_recs.len() {
                                            assert(!within_tolerance(
                                                old_recs[a].avg_vert_dist,
                                                st.avg_vert_dist,
                                            ));
                                        } else {
                                            assert(new_recs[a] == old_recs[a]);
                                            assert(new_recs[b] == old_recs[b]);
                                        }
                                    }
                                    assert forall|a: int|
                                        0 <= a < new_recs.len() implies in_range(
                                        #[trigger] new_recs[a].midpoint,
                                    ) by {
                                        if a < old_recs.len() {
                                            assert(new_recs[a] == old_recs[a]);
                                        }
                                    }
                                    assert(bucket_wf(new_recs));
                                }
                            },
                        }
                        instances.instances.insert(h, recs);
                        proof {
                            assert(instances.buckets() =~= b_before.insert(h, recs@));
                        }
                    },
                }
                entities[i].marked = false;
            }
        }
        proof {
            assert(entities@.take(i as int + 1) =~= before.take(i as int).push(entities@[i as int]));
        }
        i += 1;
    }
    proof {
        assert(es0.take(es0.len() as int) =~= es0);
        assert(entities@.take(es0.len() as int) =~= entities@);
    }
    processed
}

/// Whether a pass leaves `e` as it is: it carries no marker, or its data has
/// not loaded yet.
pub open spec fn mesh_settled(e: MeshEntity) -> bool {
    !e.marked || e.geometry is None
}

proof fn lemma_mesh_pass_settles(
    buckets: Map<u64, Seq<MeshData>>,
    duplicates: nat,
    es: Seq<MeshEntity>,
)
    ensures
        mesh_pass(buckets, duplicates, es).2.len() == es.len(),
        forall|i: int|
            0 <= i < es.len() ==> mesh_settled(#[trigger] mesh_pass(buckets, duplicates, es).2[i]),
    decreases es.len(),
{
    if es.len() > 0 {
        lemma_mesh_pass_settles(buckets, duplicates, es.drop_last());
    }
}

proof fn lemma_mesh_pass_over_settled(
    buckets: Map<u64, Seq<MeshData>>,
    duplicates: nat,
    es: Seq<MeshEntity>,
)
    requires
        forall|i: int| 0 <= i < es.len() ==> mesh_settled(#[trigger] es[i]),
    ensures
        mesh_pass(buckets, duplicates, es) == (buckets, duplicates, es),
    decreases es.len(),
{
    if es.len() > 0 {
        let prefix = es.drop_last();
        assert forall|i: int| 0 <= i < prefix.len() implies mesh_settled(#[trigger] prefix[i]) by {
            assert(prefix[i] == es[i]);
        }
        lemma_mesh_pass_over_settled(buckets, duplicates, prefix);
        assert(mesh_settled(es[es.len() - 1]));
        assert(prefix.push(es.last()) =~= es);
    }
}

/// A second mesh consolidation pass over what a first pass left changes
/// nothing: each entity is processed at most once.
pub proof fn lemma_consolidate_meshes_idempotent(
    buckets: Map<u64, Seq<MeshData>>,
    duplicates: nat,
    es: Seq<MeshEntity>,
)
    ensures
        ({
            let first = mesh_pass(buckets, duplicates, es);
            mesh_pass(first.0, first.1, first.2) == first
        }),
{
    let first = mesh_pass(buckets, duplicates, es);
    lemma_mesh_pass_settles(buckets, duplicates, es);
    lemma_mesh_pass_over_settled(first.0, first.1, first.2);
}

/// Against a bucket that holds the single record `rec`, a marked mesh of the
/// same structure becomes an instance of `rec`, moved by the offset between
/// the two midpoints, exactly when the mean vertex distances differ by less
/// than `MATCH_TOLERANCE`; otherwise it joins the bucket as a second record.
pub proof fn lemma_single_record_tolerance(
    buckets: Map<u64, Seq<MeshData>>,
    duplicates: nat,
    e: MeshEntity,
    rec: MeshData,
)
    requires
        e.marked,
        e.geometry is Some,
        buckets.contains_key(structural_fingerprint(e.geometry->Some_0.attributes@)),
        buckets[structural_fingerprint(e.geometry->Some_0.attributes@)] == seq![rec],
    ensures
        ({
            let st = stats_of(e.geometry->Some_0);
            let r = mesh_step(buckets, duplicates, e);
            let h = structural_fingerprint(e.geometry->Some_0.attributes@);
            &&& within_tolerance(rec.avg_vert_dist, st.avg_vert_dist) ==> {
                &&& r.0 == buckets
                &&& r.1 == duplicates + 1
                &&& r.2.mesh == rec.handle
                &&& r.2.aabb == rec.aabb
                &&& r.2.placement == Some(sub_vec(st.midpoint, rec.midpoint))
            }
            &&& !within_tolerance(rec.avg_vert_dist, st.avg_vert_dist) ==> {
                &&& r.0[h].len() == 2
                &&& r.0[h][0] == rec
                &&& r.1 == duplicates
                &&& r.2.mesh == e.mesh
                &&& r.2.placement == e.placement
            }
        }),
{
    let st = stats_of(e.geometry->Some_0);
    let recs = seq![rec];
    if within_tolerance(rec.avg_vert_dist, st.avg_vert_dist) {
        assert(is_first_match(recs, st.avg_vert_dist, 0));
        assert forall|k: int| is_first_match(recs, st.avg_vert_dist, k) implies k == 0 by {}
    } else {
        assert forall|k: int| !is_first_match(recs, st.avg_vert_dist, k) by {
            if k == 0 {
                assert(recs[0] == rec);
            }
        }
    }
}

} // verus!
