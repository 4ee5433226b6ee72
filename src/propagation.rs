//! Expansion of the recursive dedup markers over the scene graph.
//!
//! The scene graph is given as each entity's list of children, entities being
//! numbered from zero. A recursive marker on an entity puts the plain marker of
//! the same kind on every descendant and is then removed.
use vstd::prelude::*;

verus! {

/// The dedup markers an entity carries.
#[derive(Clone, Copy, Debug, PartialEq, Eq, Structural)]
pub struct DedupMarkers {
    pub material: bool,
    pub material_recursive: bool,
    pub mesh: bool,
    pub mesh_recursive: bool,
}

pub open spec fn graph_view(children: &Vec<Vec<usize>>) -> Seq<Seq<usize>> {
    children@.map_values(|v: Vec<usize>| v@)
}

/// Every child index names an entity of the graph.
pub open spec fn graph_wf(ch: Seq<Seq<usize>>) -> bool {
    forall|p: int, j: int| 0 <= p < ch.len() && 0 <= j < ch[p].len() ==> #[trigger] ch[p][j] < ch.len()
}

pub open spec fn is_child(ch: Seq<Seq<usize>>, p: int, c: int) -> bool {
    0 <= p < ch.len() && exists|j: int| 0 <= j < ch[p].len() && ch[p][j] == c
}

/// `p` walks from parent to child at every step, over at least one edge.
pub open spec fn is_path(ch: Seq<Seq<usize>>, p: Seq<int>) -> bool {
    &&& p.len() >= 2
    &&& forall|i: int| 0 <= i < p.len() - 1 ==> is_child(ch, #[trigger] p[i], p[i + 1])
}

/// `d` lies below `r` in the graph.
pub open spec fn descendant(ch: Seq<Seq<usize>>, r: int, d: int) -> bool {
    exists|p: Seq<int>| is_path(ch, p) && p[0] == r && p.last() == d
}

/// `x` is one of the entries of `s`.
pub open spec fn on_stack(s: Seq<usize>, x: int) -> bool {
    exists|i: int| 0 <= i < s.len() && s[i] as int == x
}

pub open spec fn count_true(s: Seq<bool>) -> nat
    decreases s.len(),
{
    if s.len() == 0 {
        0
    } else {
        count_true(s.drop_last()) + if s.last() {
            1nat
        } else {
            0nat
        }
    }
}

proof fn lemma_count_true_bound(s: Seq<bool>)
    ensures
        count_true(s) <= s.len(),
    decreases s.len(),
{
    if s.len() > 0 {
        lemma_count_true_bound(s.drop_last());
    }
}

proof fn lemma_count_true_update(s: Seq<bool>, i: int)
    requires
        0 <= i < s.len(),
        !s[i],
    ensures
        count_true(s.update(i, true)) == count_true(s) + 1,
    decreases s.len(),
{
    let t = s.update(i, true);
    if i == s.len() - 1 {
        assert(t.drop_last() =~= s.drop_last());
    } else {
        assert(t.drop_last() =~= s.drop_last().update(i, true));
        lemma_count_true_update(s.drop_last(), i);
    }
}

proof fn lemma_path_extend(ch: Seq<Seq<usize>>, p: Seq<int>, y: int)
    requires
        is_path(ch, p),
        is_child(ch, p.last(), y),
    ensures
        is_path(ch, p.push(y)),
        p.push(y)[0] == p[0],
        p.push(y).last() == y,
{
    let q = p.push(y);
    assert forall|i: int| 0 <= i < q.len() - 1 implies is_child(ch, #[trigger] q[i], q[i + 1]) by {
        if i < p.len() - 1 {
            assert(q[i] == p[i] && q[i + 1] == p[i + 1]);
        } else {
            assert(q[i] == p.last());
        }
    }
}

/// In a set that holds the children of `root` and of each of its members,
/// every descendant of `root` is a member.
proof fn lemma_closed_set_holds_path(
    ch: Seq<Seq<usize>>,
    root: int,
    reached: Seq<bool>,
    p: Seq<int>,
)
    requires
        graph_wf(ch),
        reached.len() == ch.len(),
        forall|y: int| is_child(ch, root, y) ==> #[trigger] reached[y],
        forall|x: int, y: int|
            0 <= x < ch.len() && #[trigger] reached[x] && is_child(ch, x, y) ==> #[trigger] reached[y],
        is_path(ch, p),
        p[0] == root,
    ensures
        reached[p.last()],
    decreases p.len(),
{
    if p.len() == 2 {
        assert(is_child(ch, p[0], p[1]));
    } else {
        let q = p.drop_last();
        assert forall|i: int| 0 <= i < q.len() - 1 implies is_child(ch, #[trigger] q[i], q[i + 1]) by {
            assert(q[i] == p[i] && q[i + 1] == p[i + 1]);
        }
        lemma_closed_set_holds_path(ch, root, reached, q);
        assert(is_child(ch, p[p.len() - 2], p[p.len() - 1]));
        assert(q.last() == p[p.len() - 2]);
    }
}

/// Marks every descendant of `root`.
pub fn all_children(children: &Vec<Vec<usize>>, root: usize) -> (reached: Vec<bool>)
    requires
        root < children.len(),
        graph_wf(graph_view(children)),
    ensures
        reached.len() == children.len(),
        forall|d: int|
            0 <= d < children.len() ==> (reached@[d] <==> descendant(graph_view(children), root as int, d)),
{
    let ghost ch = graph_view(children);
    let n = children.len();
    let mut reached: Vec<bool> = Vec::new();
    let mut k: usize = 0;
    while k < n
        invariant
            k <= n,
            reached.len() == k,
            forall|x: int| 0 <= x < k ==> !reached@[x],
        decreases n - k,
    {
        reached.push(false);
        k += 1;
    }
    let mut stack: Vec<usize> = Vec::new();
    let kids = &children[root];
    assert(kids@ == ch[root as int]);
    let mut j: usize = 0;
    while j < kids.len()
        invariant
            n == children.len(),
            ch == graph_view(children),
            graph_wf(ch),
            root < n,
            kids@ == ch[root as int],
            j <= kids.len(),
            reached.len() == n,
            forall|x: int| 0 <= x < n && #[trigger] reached@[x] ==> descendant(ch, root as int, x),
            forall|i: int| 0 <= i < stack.len() ==> #[trigger] stack@[i] < n && reached@[stack@[i] as int],
            forall|x: int| 0 <= x < n && #[trigger] reached@[x] ==> on_stack(stack@, x),
            forall|i: int| 0 <= i < j ==> #[trigger] reached@[kids@[i] as int],
        decreases kids.len() - j,
    {
        let c = kids[j];
        assert(ch[root as int][j as int] == c);
        assert(c < n);
        if !reached[c] {
            proof {
                assert(is_child(ch, root as int, c as int));
                let p = seq![root as int, c as int];
                assert(is_path(ch, p));
                assert(p[0] == root as int && p.last() == c as int);
                assert(descendant(ch, root as int, c as int));
            }
            let ghost s_before = stack@;
            reached.set(c, true);
            stack.push(c);
            proof {
                assert(stack@[stack.len() - 1] == c);
                assert forall|x: int| 0 <= x < n && #[trigger] reached@[x] implies on_stack(stack@, x) by {
                    if x != c as int {
                        let i = choose|i: int| 0 <= i < s_before.len() && s_before[i] as int == x;
                        assert(stack@[i] == s_before[i]);
                    }
                }
            }
        }
        j += 1;
    }
    assert forall|y: int| is_child(ch, root as int, y) implies #[trigger] reached@[y] by {
        let jj = choose|jj: int| 0 <= jj < ch[root as int].len() && ch[root as int][jj] == y;
        assert(reached@[kids@[jj] as int]);
    }
    while stack.len() > 0
        invariant
            n == children.len(),
            ch == graph_view(children),
            graph_wf(ch),
            reached.len() == n,
            forall|y: int| is_child(ch, root as int, y) ==> #[trigger] reached@[y],
            forall|x: int| 0 <= x < n && #[trigger] reached@[x] ==> descendant(ch, root as int, x),
            forall|i: int| 0 <= i < stack.len() ==> #[trigger] stack@[i] < n && reached@[stack@[i] as int],
            forall|x: int, y: int|
                0 <= x < n && #[trigger] reached@[x] && is_child(ch, x, y) && !on_stack(stack@, x)
                    ==> #[trigger] reached@[y],
        decreases n - count_true(reached@), stack.len(),
    {
        proof {
            lemma_count_true_bound(reached@);
        }
        let ghost c0 = count_true(reached@);
        let ghost s0 = stack.len();
        let ghost full = stack@;
        let x = stack.pop().unwrap();
        proof {
            assert(full =~= stack@.push(x));
            assert(reached@[x as int]) by {
                assert(full[full.len() - 1] == x);
            }
            assert forall|z: int, y: int|
                0 <= z < n && #[trigger] reached@[z] && is_child(ch, z, y) && z != x && !on_stack(
                    stack@,
                    z,
                ) implies #[trigger] reached@[y] by {
                if on_stack(full, z) {
                    let i = choose|i: int| 0 <= i < full.len() && full[i] as int == z;
                    if i < stack.len() {
                        assert(stack@[i] == full[i]);
                    }
                }
            }
        }
        let kids = &children[x];
        assert(kids@ == ch[x as int]);
        let mut j: usize = 0;
        while j < kids.len()
            invariant
                n == children.len(),
                ch == graph_view(children),
                graph_wf(ch),
                x < n,
                reached@[x as int],
                kids@ == ch[x as int],
                j <= kids.len(),
                reached.len() == n,
                stack.len() + c0 == s0 - 1 + count_true(reached@),
                count_true(reached@) >= c0,
                forall|y: int| is_child(ch, root as int, y) ==> #[trigger] reached@[y],
                forall|x: int| 0 <= x < n && #[trigger] reached@[x] ==> descendant(ch, root as int, x),
                forall|i: int| 0 <= i < stack.len() ==> #[trigger] stack@[i] < n && reached@[stack@[i] as int],
                forall|z: int, y: int|
                    0 <= z < n && #[trigger] reached@[z] && is_child(ch, z, y) && z != x && !on_stack(
                        stack@,
                        z,
                    ) ==> #[trigger] reached@[y],
                forall|i: int| 0 <= i < j ==> #[trigger] reached@[kids@[i] as int],
            decreases kids.len() - j,
        {
            let c = kids[j];
            assert(ch[x as int][j as int] == c);
            assert(c < n);
            if !reached[c] {
                let ghost r_before = reached@;
                let ghost s_before = stack@;
                proof {
                    assert(is_child(ch, x as int, c as int));
                    let p = choose|p: Seq<int>| is_path(ch, p) && p[0] == root as int && p.last() == x as int;
                    lemma_path_extend(ch, p, c as int);
                    lemma_count_true_update(reached@, c as int);
                }
                reached.set(c, true);
                stack.push(c);
                proof {
                    assert forall|z: int, y: int|
                        0 <= z < n && #[trigger] reached@[z] && is_child(ch, z, y) && z != x
                            && !on_stack(stack@, z) implies #[trigger] reached@[y] by {
                        assert(stack@[stack.len() - 1] == c);
                        if z != c as int {
                            assert(r_before[z]);
                            if on_stack(s_before, z) {
                                let i = choose|i: int| 0 <= i < s_before.len() && s_before[i] as int == z;
                                assert(stack@[i] == s_before[i]);
                            }
                            if 0 <= y < n {
                                assert(r_before[y] ==> reached@[y]);
                            }
                        }
                    }
                }
            }
            j += 1;
        }
        proof {
            assert forall|y: int| is_child(ch, x as int, y) implies #[trigger] reached@[y] by {
                let jj = choose|jj: int| 0 <= jj < ch[x as int].len() && ch[x as int][jj] == y;
                assert(reached@[kids@[jj] as int]);
            }
            lemma_count_true_bound(reached@);
        }
    }
    assert forall|d: int| 0 <= d < n implies (reached@[d] <==> descendant(ch, root as int, d)) by {
        if descendant(ch, root as int, d) {
            let p = choose|p: Seq<int>| is_path(ch, p) && p[0] == root as int && p.last() == d;
            lemma_closed_set_holds_path(ch, root as int, reached@, p);
        }
    }
    reached
}

/// The plain marker of one kind: of meshes where `mesh`, else of materials.
pub open spec fn plain(m: DedupMarkers, mesh: bool) -> bool {
    if mesh {
        m.mesh
    } else {
        m.material
    }
}

/// The recursive marker of one kind.
pub open spec fn recursive(m: DedupMarkers, mesh: bool) -> bool {
    if mesh {
        m.mesh_recursive
    } else {
        m.material_recursive
    }
}

/// `d` lies below some entity that carries the recursive marker of the kind.
pub open spec fn covered(ch: Seq<Seq<usize>>, ms: Seq<DedupMarkers>, mesh: bool, d: int) -> bool {
    exists|r: int| 0 <= r < ms.len() && #[trigger] recursive(ms[r], mesh) && descendant(ch, r, d)
}

/// The markers of entity `d` once every recursive marker has been expanded.
pub open spec fn expanded(ch: Seq<Seq<usize>>, ms: Seq<DedupMarkers>, d: int) -> DedupMarkers {
    DedupMarkers {
        material: ms[d].material || covered(ch, ms, false, d),
        material_recursive: false,
        mesh: ms[d].mesh || covered(ch, ms, true, d),
        mesh_recursive: false,
    }
}

fn set_plain(m: &mut DedupMarkers, mesh: bool)
    ensures
        plain(*final(m), mesh),
        recursive(*final(m), mesh) == recursive(*old(m), mesh),
        plain(*final(m), !mesh) == plain(*old(m), !mesh),
        recursive(*final(m), !mesh) == recursive(*old(m), !mesh),
{
    if mesh {
        m.mesh = true;
    } else {
        m.material = true;
    }
}

fn clear_recursive(m: &mut DedupMarkers, mesh: bool)
    ensures
        !recursive(*final(m), mesh),
        plain(*final(m), mesh) == plain(*old(m), mesh),
        plain(*final(m), !mesh) == plain(*old(m), !mesh),
        recursive(*final(m), !mesh) == recursive(*old(m), !mesh),
{
    if mesh {
        m.mesh_recursive = false;
    } else {
        m.material_recursive = false;
    }
}

fn is_recursive(m: &DedupMarkers, mesh: bool) -> (r: bool)
    ensures
        r == recursive(*m, mesh),
{
    if mesh {
        m.mesh_recursive
    } else {
        m.material_recursive
    }
}

/// Expands the recursive markers of one kind.
fn propagate_kind(children: &Vec<Vec<usize>>, markers: &mut Vec<DedupMarkers>, mesh: bool)
    requires
        old(markers).len() == children.len(),
        graph_wf(graph_view(children)),
    ensures
        final(markers).len() == old(markers).len(),
        forall|d: int|
            0 <= d < old(markers).len() ==> {
                &&& plain(#[trigger] final(markers)@[d], mesh) == (plain(old(markers)@[d], mesh)
                    || covered(graph_view(children), old(markers)@, mesh, d))
                &&& !recursive(final(markers)@[d], mesh)
                &&& plain(final(markers)@[d], !mesh) == plain(old(markers)@[d], !mesh)
                &&& recursive(final(markers)@[d], !mesh) == recursive(old(markers)@[d], !mesh)
            },
{
    let ghost ch = graph_view(children);
    let ghost ms0 = markers@;
    let n = markers.len();
    let mut e: usize = 0;
    while e < n
        invariant
            n == markers.len(),
            n == ms0.len(),
            n == children.len(),
            ch == graph_view(children),
            graph_wf(ch),
            e <= n,
            forall|d: int|
                0 <= d < n ==> {
                    &&& plain(#[trigger] markers@[d], mesh) == (plain(ms0[d], mesh) || exists|r: int|
                        0 <= r < e && #[trigger] recursive(ms0[r], mesh) && descendant(ch, r, d))
                    &&& recursive(markers@[d], mesh) == (d >= e && recursive(ms0[d], mesh))
                    &&& plain(markers@[d], !mesh) == plain(ms0[d], !mesh)
                    &&& recursive(markers@[d], !mesh) == recursive(ms0[d], !mesh)
                },
        decreases n - e,
    {
        if is_recursive(&markers[e], mesh) {
            let reach = all_children(children, e);
            let ghost before = markers@;
            let mut d: usize = 0;
            while d < n
                invariant
                    n == markers.len(),
                    n == reach.len(),
                    d <= n,
                    forall|k: int|
                        0 <= k < n ==> {
                            &&& plain(#[trigger] markers@[k], mesh) == (plain(before[k], mesh) || (k
                                < d && reach@[k]))
                            &&& recursive(markers@[k], mesh) == recursive(before[k], mesh)
                            &&& plain(markers@[k], !mesh) == plain(before[k], !mesh)
                            &&& recursive(markers@[k], !mesh) == recursive(before[k], !mesh)
                        },
                decreases n - d,
            {
                if reach[d] {
                    set_plain(&mut markers[d], mesh);
                }
                d += 1;
            }
            clear_recursive(&mut markers[e], mesh);
            assert(recursive(ms0[e as int], mesh));
            assert forall|k: int| 0 <= k < n implies plain(#[trigger] markers@[k], mesh) == (plain(
                ms0[k],
                mesh,
            ) || exists|r: int|
                0 <= r < e + 1 && #[trigger] recursive(ms0[r], mesh) && descendant(ch, r, k)) by {
                if descendant(ch, e as int, k) {
                    assert(reach@[k]);
                }
            }
        }
        e += 1;
    }
}

/// Expands every recursive marker: each descendant of an entity with a
/// recursive marker gets the plain marker of that kind, and no recursive
/// marker is left.
pub fn apply_auto_instance_recursive(children: &Vec<Vec<usize>>, markers: &mut Vec<DedupMarkers>)
    requires
        old(markers).len() == children.len(),
        graph_wf(graph_view(children)),
    ensures
        final(markers).len() == old(markers).len(),
        forall|d: int|
            0 <= d < old(markers).len() ==> #[trigger] final(markers)@[d] == expanded(
                graph_view(children),
                old(markers)@,
                d,
            ),
{
    let ghost ms0 = markers@;
    let ghost ch = graph_view(children);
    propagate_kind(children, markers, false);
    let ghost ms1 = markers@;
    propagate_kind(children, markers, true);
    assert forall|d: int| 0 <= d < ms0.len() implies #[trigger] markers@[d] == expanded(
        ch,
        ms0,
        d,
    ) by {
        assert(plain(ms1[d], true) == plain(ms0[d], true));
        assert(covered(ch, ms1, true, d) == covered(ch, ms0, true, d)) by {
            if covered(ch, ms1, true, d) {
                let r = choose|r: int|
                    0 <= r < ms1.len() && #[trigger] recursive(ms1[r], true) && descendant(ch, r, d);
                assert(recursive(ms0[r], true));
            }
            if covered(ch, ms0, true, d) {
                let r = choose|r: int|
                    0 <= r < ms0.len() && #[trigger] recursive(ms0[r], true) && descendant(ch, r, d);
                assert(recursive(ms1[r], true));
            }
        }
        assert(covered(ch, ms0, false, d) == (exists|r: int|
            0 <= r < ms0.len() && #[trigger] recursive(ms0[r], false) && descendant(ch, r, d)));
    }
}

/// Expanding the markers a second time changes nothing: no recursive marker
/// is left to expand.
pub proof fn lemma_expansion_idempotent(ch: Seq<Seq<usize>>, ms: Seq<DedupMarkers>)
    ensures
        ({
            let once = Seq::new(ms.len(), |d: int| expanded(ch, ms, d));
            forall|d: int| 0 <= d < ms.len() ==> #[trigger] expanded(ch, once, d) == once[d]
        }),
{
    let once = Seq::new(ms.len(), |d: int| expanded(ch, ms, d));
    assert forall|d: int| 0 <= d < ms.len() implies #[trigger] expanded(ch, once, d) == once[d] by {
        assert(!covered(ch, once, false, d));
        assert(!covered(ch, once, true, d));
    }
}

} // verus!
