//! Deduplication: merging the textures, materials and meshes that have
//! the same value into the first of them.
use vstd::prelude::*;
use crate::compact::{
    count, kept_len, lemma_count_all, lemma_count_bound, lemma_rank_below, lemma_select_all,
    lemma_select_at, lemma_select_len, rank_table, remap_opt, selected,
};
use crate::document::{Document, DocumentView};
use crate::entities::{
    views, Material, MaterialView, Mesh, MeshView, RootView, Texture, TextureView,
};
use crate::plan::{
    apply, apply_plan, bounded, covers, identity_plan, keep_all, lemma_apply_ok, lemma_apply_valid,
    lemma_bounded_covers, lemma_identity_bounded, material_mapped, materials_mapped, mesh_mapped,
    meshes_mapped, primitive_mapped, ref_mapped, KindPlan, KindPlanView, Plan, PlanView,
};

verus! {

/// The first index from `j` on, and at most `i`, whose entry is the entry
/// at `i`.
pub open spec fn first_same<T>(list: Seq<T>, i: int, j: int) -> int
    decreases i - j,
{
    if j >= i {
        i
    } else if list[j] == list[i] {
        j
    } else {
        first_same(list, i, j + 1)
    }
}

/// The first index whose entry is the entry at `i`: the entry that the
/// one at `i` is merged into.
pub open spec fn representative<T>(list: Seq<T>, i: int) -> int {
    first_same(list, i, 0)
}

/// For every entry, whether no entry before it is the same.
pub open spec fn unique_marks<T>(list: Seq<T>) -> Seq<bool> {
    Seq::new(list.len(), |i: int| representative(list, i) == i)
}

/// For every entry, the place of its representative among the entries
/// that stay.
pub open spec fn merge_table<T>(list: Seq<T>) -> Seq<usize> {
    Seq::new(list.len(), |i: int| count(unique_marks(list), representative(list, i)) as usize)
}

/// The plan that merges every entry into the first entry that is the
/// same.
pub open spec fn merge_plan<T>(list: Seq<T>) -> KindPlanView {
    KindPlanView { keep: unique_marks(list), table: merge_table(list) }
}

/// What the search for the first same entry finds.
pub proof fn lemma_first_same<T>(list: Seq<T>, i: int, j: int)
    requires
        0 <= j <= i < list.len(),
    ensures
        j <= first_same(list, i, j) <= i,
        list[first_same(list, i, j)] == list[i],
        forall|k: int| j <= k < first_same(list, i, j) ==> #[trigger] list[k] != list[i],
    decreases i - j,
{
    if j < i && list[j] != list[i] {
        lemma_first_same(list, i, j + 1);
    }
}

/// The search finds the same entry for every entry that is the same.
proof fn lemma_first_same_agrees<T>(list: Seq<T>, a: int, b: int, j: int)
    requires
        0 <= j <= a <= b < list.len(),
        list[a] == list[b],
    ensures
        first_same(list, a, j) == first_same(list, b, j),
    decreases a - j,
{
    if j < a {
        if list[j] != list[a] {
            lemma_first_same_agrees(list, a, b, j + 1);
        }
    } else {
        if a < b {
        }
    }
}

/// Entries that are the same have the same representative, and it comes
/// no later than any of them.
pub proof fn lemma_representative<T>(list: Seq<T>, a: int, b: int)
    requires
        0 <= a <= b < list.len(),
        list[a] == list[b],
    ensures
        representative(list, a) == representative(list, b),
        0 <= representative(list, b) <= a,
        list[representative(list, b)] == list[b],
        unique_marks(list)[representative(list, b)],
{
    lemma_first_same_agrees(list, a, b, 0);
    lemma_first_same(list, a, 0);
    let r = representative(list, a);
    lemma_first_same(list, r, 0);
    let rr = representative(list, r);
    if rr < r {
        assert(list[rr] == list[a]);
    }
}

/// The merging plan gives every entry a new index among the entries that
/// stay.
pub proof fn lemma_merge_bounded<T>(list: Seq<T>)
    requires
        list.len() <= usize::MAX,
    ensures
        bounded(merge_plan(list)),
        merge_plan(list).fits(list.len()),
{
    let keep = unique_marks(list);
    assert forall|r: int| 0 <= r < list.len() implies (#[trigger] merge_table(list)[r]) < kept_len(keep) by {
        lemma_representative(list, r, r);
        let rep = representative(list, r);
        lemma_rank_below(keep, rep);
        lemma_count_bound(keep, rep);
    }
}

/// First wins: of two entries that are the same, the later one goes, both
/// get the same new index, and at that index stands their value.
pub proof fn lemma_merged<T>(list: Seq<T>, a: int, b: int)
    requires
        0 <= a < b < list.len(),
        list.len() <= usize::MAX,
        list[a] == list[b],
    ensures
        !merge_plan(list).keep[b],
        merge_plan(list).table[b] == merge_plan(list).table[a],
        merge_plan(list).table[a] < selected(list, merge_plan(list).keep).len(),
        selected(list, merge_plan(list).keep)[merge_plan(list).table[a] as int] == list[a],
{
    lemma_representative(list, a, b);
    lemma_representative(list, a, a);
    let keep = unique_marks(list);
    let rep = representative(list, a);
    lemma_count_bound(keep, rep);
    lemma_select_at(list, keep, list.len() as int, rep);
}

/// An entry that no earlier entry is the same as stays, and stands at its
/// new index.
pub proof fn lemma_merge_keeps<T>(list: Seq<T>, a: int)
    requires
        0 <= a < list.len(),
        list.len() <= usize::MAX,
    ensures
        merge_plan(list).table[a] < selected(list, merge_plan(list).keep).len(),
        selected(list, merge_plan(list).keep)[merge_plan(list).table[a] as int] == list[a],
{
    lemma_representative(list, a, a);
    let keep = unique_marks(list);
    let rep = representative(list, a);
    lemma_count_bound(keep, rep);
    lemma_select_at(list, keep, list.len() as int, rep);
}

/// The plan that merges the textures that are the same and keeps everything
/// else where it is.
pub open spec fn textures_plan(root: RootView) -> PlanView {
    PlanView {
        nodes: identity_plan(root.nodes.len()),
        meshes: identity_plan(root.meshes.len()),
        materials: identity_plan(root.materials.len()),
        textures: merge_plan(root.textures),
        accessors: identity_plan(root.accessors.len()),
    }
}

/// The description with the textures that are the same merged into the first
/// of them, and every reference to one of them renumbered.
pub open spec fn textures_deduped(root: RootView) -> RootView {
    apply_plan(root, textures_plan(root))
}

/// Merging textures leaves no reference dangling.
pub proof fn lemma_textures_plan(root: RootView)
    requires
        root.valid(),
        root.textures.len() <= usize::MAX,
    ensures
        textures_plan(root).fits(root),
        covers(root, textures_plan(root)),
{
    lemma_identity_bounded(root.nodes.len());
    lemma_identity_bounded(root.meshes.len());
    lemma_identity_bounded(root.materials.len());
    lemma_identity_bounded(root.textures.len());
    lemma_identity_bounded(root.accessors.len());
    lemma_merge_bounded(root.textures);
    lemma_bounded_covers(root, textures_plan(root));
}

/// Makes the plan that merges the textures of a list that are the same.
fn merge_textures(list: &Vec<Texture>) -> (r: KindPlan)
    ensures
        r@ == merge_plan(views(list@)),
{
    let ghost v = views(list@);
    let n = list.len();
    let mut reps: Vec<usize> = Vec::new();
    let mut keep: Vec<bool> = Vec::new();
    let mut i: usize = 0;
    while i < n
        invariant
            i <= n,
            n == list.len(),
            v == views(list@),
            reps.len() == i,
            keep.len() == i,
            forall|k: int| 0 <= k < i ==> #[trigger] reps@[k] == representative(v, k),
            forall|k: int| 0 <= k < i ==> #[trigger] keep@[k] == (representative(v, k) == k),
        decreases n - i,
    {
        let mut j: usize = 0;
        while j < i && !list[j].same(&list[i])
            invariant
                j <= i < n,
                n == list.len(),
                v == views(list@),
                first_same(v, i as int, 0) == first_same(v, i as int, j as int),
            decreases i - j,
        {
            assert(v[j as int] == list@[j as int]@);
            assert(v[i as int] == list@[i as int]@);
            j += 1;
        }
        proof {
            if j < i {
                assert(v[j as int] == list@[j as int]@);
                assert(v[i as int] == list@[i as int]@);
            }
        }
        reps.push(j);
        keep.push(j == i);
        i += 1;
    }
    assert(keep@ =~= unique_marks(v));
    let ranks = rank_table(&keep);
    let mut table: Vec<usize> = Vec::new();
    let mut i: usize = 0;
    while i < n
        invariant
            i <= n,
            n == list.len(),
            v == views(list@),
            reps.len() == n,
            table.len() == i,
            ranks.len() == n,
            keep@ == unique_marks(v),
            crate::compact::ranks(ranks@, keep@),
            forall|k: int| 0 <= k < n ==> #[trigger] reps@[k] == representative(v, k),
            forall|k: int| 0 <= k < i ==> #[trigger] table@[k] == merge_table(v)[k],
        decreases n - i,
    {
        proof {
            lemma_first_same(v, i as int, 0);
            lemma_count_bound(keep@, representative(v, i as int));
        }
        table.push(ranks[reps[i]]);
        i += 1;
    }
    assert(table@ =~= merge_table(v));
    KindPlan { keep, table }
}

/// Merges the textures of a document that are the same into the first of them.
pub fn dedup_textures(doc: &mut Document)
    requires
        old(doc)@.wf(),
    ensures
        final(doc)@.wf(),
        final(doc)@.root == textures_deduped(old(doc)@.root),
        final(doc)@.data == old(doc)@.data,
{
    let plan = Plan {
        nodes: keep_all(doc.root.nodes.len()),
        meshes: keep_all(doc.root.meshes.len()),
        materials: keep_all(doc.root.materials.len()),
        textures: merge_textures(&doc.root.textures),
        accessors: keep_all(doc.root.accessors.len()),
    };
    proof {
        assert(doc@.root.textures.len() == doc.root.textures.len());
        lemma_textures_plan(doc@.root);
        lemma_apply_valid(doc@.root, plan@);
        lemma_apply_ok(doc@.root, plan@);
    }
    let next = apply(&doc.root, &plan);
    doc.root = next;
}

/// The plan that merges the materials that are the same and keeps everything
/// else where it is.
pub open spec fn materials_plan(root: RootView) -> PlanView {
    PlanView {
        nodes: identity_plan(root.nodes.len()),
        meshes: identity_plan(root.meshes.len()),
        materials: merge_plan(root.materials),
        textures: identity_plan(root.textures.len()),
        accessors: identity_plan(root.accessors.len()),
    }
}

/// The description with the materials that are the same merged into the first
/// of them, and every reference to one of them renumbered.
pub open spec fn materials_deduped(root: RootView) -> RootView {
    apply_plan(root, materials_plan(root))
}

/// Merging materials leaves no reference dangling.
pub proof fn lemma_materials_plan(root: RootView)
    requires
        root.valid(),
        root.materials.len() <= usize::MAX,
    ensures
        materials_plan(root).fits(root),
        covers(root, materials_plan(root)),
{
    lemma_identity_bounded(root.nodes.len());
    lemma_identity_bounded(root.meshes.len());
    lemma_identity_bounded(root.materials.len());
    lemma_identity_bounded(root.textures.len());
    lemma_identity_bounded(root.accessors.len());
    lemma_merge_bounded(root.materials);
    lemma_bounded_covers(root, materials_plan(root));
}

/// Makes the plan that merges the materials of a list that are the same.
fn merge_materials(list: &Vec<Material>) -> (r: KindPlan)
    ensures
        r@ == merge_plan(views(list@)),
{
    let ghost v = views(list@);
    let n = list.len();
    let mut reps: Vec<usize> = Vec::new();
    let mut keep: Vec<bool> = Vec::new();
    let mut i: usize = 0;
    while i < n
        invariant
            i <= n,
            n == list.len(),
            v == views(list@),
            reps.len() == i,
            keep.len() == i,
            forall|k: int| 0 <= k < i ==> #[trigger] reps@[k] == representative(v, k),
            forall|k: int| 0 <= k < i ==> #[trigger] keep@[k] == (representative(v, k) == k),
        decreases n - i,
    {
        let mut j: usize = 0;
        while j < i && !list[j].same(&list[i])
            invariant
                j <= i < n,
                n == list.len(),
                v == views(list@),
                first_same(v, i as int, 0) == first_same(v, i as int, j as int),
            decreases i - j,
        {
            assert(v[j as int] == list@[j as int]@);
            assert(v[i as int] == list@[i as int]@);
            j += 1;
        }
        proof {
            if j < i {
                assert(v[j as int] == list@[j as int]@);
                assert(v[i as int] == list@[i as int]@);
            }
        }
        reps.push(j);
        keep.push(j == i);
        i += 1;
    }
    assert(keep@ =~= unique_marks(v));
    let ranks = rank_table(&keep);
    let mut table: Vec<usize> = Vec::new();
    let mut i: usize = 0;
    while i < n
        invariant
            i <= n,
            n == list.len(),
            v == views(list@),
            reps.len() == n,
            table.len() == i,
            ranks.len() == n,
            keep@ == unique_marks(v),
            crate::compact::ranks(ranks@, keep@),
            forall|k: int| 0 <= k < n ==> #[trigger] reps@[k] == representative(v, k),
            forall|k: int| 0 <= k < i ==> #[trigger] table@[k] == merge_table(v)[k],
        decreases n - i,
    {
        proof {
            lemma_first_same(v, i as int, 0);
            lemma_count_bound(keep@, representative(v, i as int));
        }
        table.push(ranks[reps[i]]);
        i += 1;
    }
    assert(table@ =~= merge_table(v));
    KindPlan { keep, table }
}

/// Merges the materials of a document that are the same into the first of them.
pub fn dedup_materials(doc: &mut Document)
    requires
        old(doc)@.wf(),
    ensures
        final(doc)@.wf(),
        final(doc)@.root == materials_deduped(old(doc)@.root),
        final(doc)@.data == old(doc)@.data,
{
    let plan = Plan {
        nodes: keep_all(doc.root.nodes.len()),
        meshes: keep_all(doc.root.meshes.len()),
        materials: merge_materials(&doc.root.materials),
        textures: keep_all(doc.root.textures.len()),
        accessors: keep_all(doc.root.accessors.len()),
    };
    proof {
        assert(doc@.root.materials.len() == doc.root.materials.len());
        lemma_materials_plan(doc@.root);
        lemma_apply_valid(doc@.root, plan@);
        lemma_apply_ok(doc@.root, plan@);
    }
    let next = apply(&doc.root, &plan);
    doc.root = next;
}

/// The plan that merges the meshes that are the same and keeps everything
/// else where it is.
pub open spec fn meshes_plan(root: RootView) -> PlanView {
    PlanView {
        nodes: identity_plan(root.nodes.len()),
        meshes: merge_plan(root.meshes),
        materials: identity_plan(root.materials.len()),
        textures: identity_plan(root.textures.len()),
        accessors: identity_plan(root.accessors.len()),
    }
}

/// The description with the meshes that are the same merged into the first
/// of them, and every reference to one of them renumbered.
pub open spec fn meshes_deduped(root: RootView) -> RootView {
    apply_plan(root, meshes_plan(root))
}

/// Merging meshes leaves no reference dangling.
pub proof fn lemma_meshes_plan(root: RootView)
    requires
        root.valid(),
        root.meshes.len() <= usize::MAX,
    ensures
        meshes_plan(root).fits(root),
        covers(root, meshes_plan(root)),
{
    lemma_identity_bounded(root.nodes.len());
    lemma_identity_bounded(root.meshes.len());
    lemma_identity_bounded(root.materials.len());
    lemma_identity_bounded(root.textures.len());
    lemma_identity_bounded(root.accessors.len());
    lemma_merge_bounded(root.meshes);
    lemma_bounded_covers(root, meshes_plan(root));
}

/// Makes the plan that merges the meshes of a list that are the same.
fn merge_meshes(list: &Vec<Mesh>) -> (r: KindPlan)
    ensures
        r@ == merge_plan(views(list@)),
{
    let ghost v = views(list@);
    let n = list.len();
    let mut reps: Vec<usize> = Vec::new();
    let mut keep: Vec<bool> = Vec::new();
    let mut i: usize = 0;
    while i < n
        invariant
            i <= n,
            n == list.len(),
            v == views(list@),
            reps.len() == i,
            keep.len() == i,
            forall|k: int| 0 <= k < i ==> #[trigger] reps@[k] == representative(v, k),
            forall|k: int| 0 <= k < i ==> #[trigger] keep@[k] == (representative(v, k) == k),
        decreases n - i,
    {
        let mut j: usize = 0;
        while j < i && !list[j].same(&list[i])
            invariant
                j <= i < n,
                n == list.len(),
                v == views(list@),
                first_same(v, i as int, 0) == first_same(v, i as int, j as int),
            decreases i - j,
        {
            assert(v[j as int] == list@[j as int]@);
            assert(v[i as int] == list@[i as int]@);
            j += 1;
        }
        proof {
            if j < i {
                assert(v[j as int] == list@[j as int]@);
                assert(v[i as int] == list@[i as int]@);
            }
        }
        reps.push(j);
        keep.push(j == i);
        i += 1;
    }
    assert(keep@ =~= unique_marks(v));
    let ranks = rank_table(&keep);
    let mut table: Vec<usize> = Vec::new();
    let mut i: usize = 0;
    while i < n
        invariant
            i <= n,
            n == list.len(),
            v == views(list@),
            reps.len() == n,
            table.len() == i,
            ranks.len() == n,
            keep@ == unique_marks(v),
            crate::compact::ranks(ranks@, keep@),
            forall|k: int| 0 <= k < n ==> #[trigger] reps@[k] == representative(v, k),
            forall|k: int| 0 <= k < i ==> #[trigger] table@[k] == merge_table(v)[k],
        decreases n - i,
    {
        proof {
            lemma_first_same(v, i as int, 0);
            lemma_count_bound(keep@, representative(v, i as int));
        }
        table.push(ranks[reps[i]]);
        i += 1;
    }
    assert(table@ =~= merge_table(v));
    KindPlan { keep, table }
}

/// Merges the meshes of a document that are the same into the first of them.
pub fn dedup_meshes(doc: &mut Document)
    requires
        old(doc)@.wf(),
    ensures
        final(doc)@.wf(),
        final(doc)@.root == meshes_deduped(old(doc)@.root),
        final(doc)@.data == old(doc)@.data,
{
    let plan = Plan {
        nodes: keep_all(doc.root.nodes.len()),
        meshes: merge_meshes(&doc.root.meshes),
        materials: keep_all(doc.root.materials.len()),
        textures: keep_all(doc.root.textures.len()),
        accessors: keep_all(doc.root.accessors.len()),
    };
    proof {
        assert(doc@.root.meshes.len() == doc.root.meshes.len());
        lemma_meshes_plan(doc@.root);
        lemma_apply_valid(doc@.root, plan@);
        lemma_apply_ok(doc@.root, plan@);
    }
    let next = apply(&doc.root, &plan);
    doc.root = next;
}

/// The deduplicated description: textures merged first, then materials,
/// then meshes, so that what differs only in references to entities that
/// were merged is merged too.
pub open spec fn deduped(root: RootView) -> RootView {
    meshes_deduped(materials_deduped(textures_deduped(root)))
}

/// Deduplicates a document: merges the textures, then the materials, then
/// the meshes that have the same value, each into the first of them in
/// declared order, and renumbers every reference to a merged entity.
pub fn dedup(doc: &mut Document)
    requires
        old(doc)@.wf(),
    ensures
        final(doc)@.wf(),
        final(doc)@.root == deduped(old(doc)@.root),
        final(doc)@.data == old(doc)@.data,
{
    dedup_textures(doc);
    dedup_materials(doc);
    dedup_meshes(doc);
}

/// Renumbering by a plan that keeps every texture where it is leaves a
/// reference as it is.
proof fn lemma_ref_unchanged(r: Option<crate::entities::TextureRefView>, plan: PlanView, n: nat)
    requires
        plan.textures == identity_plan(n),
        crate::document::ref_below(r, n),
    ensures
        ref_mapped(r, plan) == r,
{
}

/// Merging materials leaves the value of every material as it is.
proof fn lemma_material_unchanged(root: RootView, i: int)
    requires
        root.valid(),
        0 <= i < root.materials.len(),
    ensures
        material_mapped(root.materials[i], materials_plan(root)) == root.materials[i],
{
    reveal(RootView::valid);
    let plan = materials_plan(root);
    let m = root.materials[i];
    let n = root.textures.len();
    assert(root.material_valid(m));
    if let Some(p) = m.pbr {
        lemma_ref_unchanged(p.base_color, plan, n);
        lemma_ref_unchanged(p.metallic_roughness, plan, n);
    }
    lemma_ref_unchanged(m.normal, plan, n);
    lemma_ref_unchanged(m.occlusion, plan, n);
    lemma_ref_unchanged(m.emissive, plan, n);
}

/// First wins among materials: where material `a` is declared before
/// material `b` and the two have the same value, merging removes `b`; at
/// the new index of `a` stands a material with that value; and every
/// primitive that had `b` as its material has the new index of `a`.
pub proof fn lemma_materials_first_wins(root: RootView, a: int, b: int)
    requires
        root.valid(),
        root.materials.len() <= usize::MAX,
        0 <= a < b < root.materials.len(),
        root.materials[a] == root.materials[b],
    ensures
        !materials_plan(root).materials.keep[b],
        materials_plan(root).materials.table[b] == materials_plan(root).materials.table[a],
        materials_plan(root).materials.table[a] < materials_deduped(root).materials.len(),
        materials_deduped(root).materials[materials_plan(root).materials.table[a] as int]
            == root.materials[a],
        materials_deduped(root).meshes.len() == root.meshes.len(),
        forall|m: int, q: int|
            0 <= m < root.meshes.len() && 0 <= q < root.meshes[m].primitives.len() && (
            #[trigger] root.meshes[m].primitives[q]).material == Some(b as usize) ==> materials_deduped(
                root,
            ).meshes[m].primitives[q].material == Some(materials_plan(root).materials.table[a]),
{
    let plan = materials_plan(root);
    let after = materials_deduped(root);
    let all = materials_mapped(root, plan);
    assert(all =~= root.materials) by {
        assert forall|i: int| 0 <= i < all.len() implies all[i] == root.materials[i] by {
            lemma_material_unchanged(root, i);
        }
    }
    lemma_merged(root.materials, a, b);
    let ms = meshes_mapped(root, plan);
    lemma_identity_bounded(root.meshes.len());
    lemma_select_all(ms, plan.meshes.keep, ms.len() as int);
    assert(ms.subrange(0, ms.len() as int) =~= ms);
    assert forall|m: int, q: int|
        0 <= m < root.meshes.len() && 0 <= q < root.meshes[m].primitives.len() && (
        #[trigger] root.meshes[m].primitives[q]).material == Some(b as usize) implies after.meshes[m].primitives[q].material
        == Some(plan.materials.table[a]) by {
        assert(after.meshes[m] == mesh_mapped(root.meshes[m], plan));
        assert(after.meshes[m].primitives[q] == primitive_mapped(root.meshes[m].primitives[q], plan));
    }
}

} // verus!
