//! Pruning: removing the entities that nothing refers to, until none is
//! left.
use vstd::prelude::*;
use crate::compact::{
    all_kept, count, keeps_all, kept_len, lemma_count_bound, lemma_count_drops, lemma_rank_below,
    lemma_select_len, rank_table, ranks, selected,
};
use crate::document::{Document, DocumentView};
use crate::entities::{Root, RootView};
use crate::plan::{
    apply, apply_plan, covers, lemma_apply_ok, lemma_apply_valid, materials_mapped, meshes_mapped,
    nodes_mapped, KindPlan, KindPlanView, Plan, PlanView,
};
use crate::references::{
    accessor_marks, accessor_referenced, attribute_mentions, attributes_mention, material_marks,
    material_mentions, material_referenced, materials_mention, mesh_marks, mesh_mentions_accessor,
    mesh_mentions_material, mesh_referenced, meshes_mention_accessor, meshes_mention_material,
    node_marks, node_mentions_mesh, node_mentions_node, node_referenced, nodes_mention_mesh,
    nodes_mention_node, primitive_mentions_accessor, primitive_mentions_material,
    primitives_mention_accessor, primitives_mention_material, ref_is, scene_mentions, scenes_mention,
    texture_marks, texture_referenced,
};

verus! {

/// For every entry, the number of kept entries before it.
pub open spec fn rank_seq(keep: Seq<bool>) -> Seq<usize> {
    Seq::new(keep.len(), |i: int| count(keep, i) as usize)
}

/// The plan that keeps the marked entries of one kind and gives each its
/// place among them.
pub open spec fn kind_plan(keep: Seq<bool>) -> KindPlanView {
    KindPlanView { keep, table: rank_seq(keep) }
}

/// For each kind of entity that can be removed, which entries stay.
pub struct Marks {
    pub nodes: Seq<bool>,
    pub meshes: Seq<bool>,
    pub materials: Seq<bool>,
    pub textures: Seq<bool>,
    pub accessors: Seq<bool>,
}

/// The plan that keeps what is marked, each entry at its place among the
/// marked of its kind.
pub open spec fn marks_plan(marks: Marks) -> PlanView {
    PlanView {
        nodes: kind_plan(marks.nodes),
        meshes: kind_plan(marks.meshes),
        materials: kind_plan(marks.materials),
        textures: kind_plan(marks.textures),
        accessors: kind_plan(marks.accessors),
    }
}

/// Whether the marks are marks for the description, and everything that
/// is referred to is marked.
pub open spec fn sound(root: RootView, marks: Marks) -> bool {
    &&& marks.nodes.len() == root.nodes.len()
    &&& marks.meshes.len() == root.meshes.len()
    &&& marks.materials.len() == root.materials.len()
    &&& marks.textures.len() == root.textures.len()
    &&& marks.accessors.len() == root.accessors.len()
    &&& forall|i: int| 0 <= i < root.nodes.len() && node_referenced(root, i as usize) ==> #[trigger] marks.nodes[i]
    &&& forall|i: int| 0 <= i < root.meshes.len() && mesh_referenced(root, i as usize) ==> #[trigger] marks.meshes[i]
    &&& forall|i: int|
        0 <= i < root.materials.len() && material_referenced(root, i as usize) ==> #[trigger] marks.materials[i]
    &&& forall|i: int|
        0 <= i < root.textures.len() && texture_referenced(root, i as usize) ==> #[trigger] marks.textures[i]
    &&& forall|i: int|
        0 <= i < root.accessors.len() && accessor_referenced(root, i as usize) ==> #[trigger] marks.accessors[i]
}

/// Of each kind, what is referred to.
pub open spec fn prune_marks(root: RootView) -> Marks {
    Marks {
        nodes: node_marks(root),
        meshes: mesh_marks(root),
        materials: material_marks(root),
        textures: texture_marks(root),
        accessors: accessor_marks(root),
    }
}

/// The plan of one round of pruning: of each kind, what is referred to
/// stays.
pub open spec fn prune_plan(root: RootView) -> PlanView {
    marks_plan(prune_marks(root))
}

/// Whether every node, mesh, material, texture and accessor is referred
/// to.
pub open spec fn settled(root: RootView) -> bool {
    &&& all_kept(node_marks(root))
    &&& all_kept(mesh_marks(root))
    &&& all_kept(material_marks(root))
    &&& all_kept(texture_marks(root))
    &&& all_kept(accessor_marks(root))
}

/// The description after one round of pruning.
pub open spec fn prune_round(root: RootView) -> RootView {
    apply_plan(root, prune_plan(root))
}

/// The number of entities that pruning may remove.
pub open spec fn entity_count(root: RootView) -> nat {
    root.nodes.len() + root.meshes.len() + root.materials.len() + root.textures.len()
        + root.accessors.len()
}

/// The description after at most `fuel` rounds of pruning, stopping at the
/// first round that would remove nothing.
pub open spec fn prune_spec(root: RootView, fuel: nat) -> RootView
    decreases fuel,
{
    if fuel == 0 || settled(root) {
        root
    } else {
        prune_spec(prune_round(root), (fuel - 1) as nat)
    }
}

/// The pruned description: rounds of pruning until one would remove
/// nothing, at most as many as there are entities to remove.
pub open spec fn pruned(root: RootView) -> RootView {
    prune_spec(root, entity_count(root))
}

/// An entry that stays has a new index among the entries that stay.
pub proof fn lemma_ranked(keep: Seq<bool>, r: int)
    requires
        0 <= r < keep.len(),
        r <= usize::MAX,
        keep[r],
    ensures
        rank_seq(keep)[r] < kept_len(keep),
        rank_seq(keep)[r] == count(keep, r),
{
    lemma_rank_below(keep, r);
    lemma_count_bound(keep, r);
}

/// The lists of the description after carrying out the plan of the marks
/// have as many entries as are marked.
proof fn lemma_marked_lens(root: RootView, marks: Marks)
    requires
        sound(root, marks),
    ensures
        apply_plan(root, marks_plan(marks)).nodes.len() == kept_len(marks.nodes),
        apply_plan(root, marks_plan(marks)).meshes.len() == kept_len(marks.meshes),
        apply_plan(root, marks_plan(marks)).materials.len() == kept_len(marks.materials),
        apply_plan(root, marks_plan(marks)).textures.len() == kept_len(marks.textures),
        apply_plan(root, marks_plan(marks)).accessors.len() == kept_len(marks.accessors),
        apply_plan(root, marks_plan(marks)).scenes.len() == root.scenes.len(),
{
    let plan = marks_plan(marks);
    lemma_select_len(nodes_mapped(root, plan), plan.nodes.keep, root.nodes.len() as int);
    lemma_select_len(meshes_mapped(root, plan), plan.meshes.keep, root.meshes.len() as int);
    lemma_select_len(materials_mapped(root, plan), plan.materials.keep, root.materials.len() as int);
    lemma_select_len(root.textures, plan.textures.keep, root.textures.len() as int);
    lemma_select_len(root.accessors, plan.accessors.keep, root.accessors.len() as int);
}

/// A node that a scene or a node lists gets a new index among the nodes
/// that stay.
proof fn lemma_node_target(root: RootView, marks: Marks, r: usize)
    requires
        sound(root, marks),
        r < root.nodes.len(),
        node_referenced(root, r),
    ensures
        marks_plan(marks).nodes.table[r as int] < apply_plan(root, marks_plan(marks)).nodes.len(),
{
    lemma_marked_lens(root, marks);
    assert(marks.nodes[r as int]);
    lemma_ranked(marks.nodes, r as int);
}

/// A mesh that a node has gets a new index among the meshes that stay.
proof fn lemma_mesh_target(root: RootView, marks: Marks, r: usize)
    requires
        sound(root, marks),
        r < root.meshes.len(),
        mesh_referenced(root, r),
    ensures
        marks_plan(marks).meshes.table[r as int] < apply_plan(root, marks_plan(marks)).meshes.len(),
{
    lemma_marked_lens(root, marks);
    assert(marks.meshes[r as int]);
    lemma_ranked(marks.meshes, r as int);
}

/// A material that a primitive has gets a new index among the materials
/// that stay.
proof fn lemma_material_target(root: RootView, marks: Marks, r: usize)
    requires
        sound(root, marks),
        r < root.materials.len(),
        material_referenced(root, r),
    ensures
        marks_plan(marks).materials.table[r as int] < apply_plan(root, marks_plan(marks)).materials.len(),
{
    lemma_marked_lens(root, marks);
    assert(marks.materials[r as int]);
    lemma_ranked(marks.materials, r as int);
}

/// A texture that a material has gets a new index among the textures that
/// stay.
proof fn lemma_texture_target(root: RootView, marks: Marks, r: usize)
    requires
        sound(root, marks),
        r < root.textures.len(),
        texture_referenced(root, r),
    ensures
        marks_plan(marks).textures.table[r as int] < apply_plan(root, marks_plan(marks)).textures.len(),
{
    lemma_marked_lens(root, marks);
    assert(marks.textures[r as int]);
    lemma_ranked(marks.textures, r as int);
}

/// An accessor that a primitive has gets a new index among the accessors
/// that stay.
proof fn lemma_accessor_target(root: RootView, marks: Marks, r: usize)
    requires
        sound(root, marks),
        r < root.accessors.len(),
        accessor_referenced(root, r),
    ensures
        marks_plan(marks).accessors.table[r as int] < apply_plan(root, marks_plan(marks)).accessors.len(),
{
    lemma_marked_lens(root, marks);
    assert(marks.accessors[r as int]);
    lemma_ranked(marks.accessors, r as int);
}

/// After the plan of sound marks is carried out, every scene is valid.
proof fn lemma_round_scenes(root: RootView, marks: Marks, i: int)
    requires
        root.valid(),
        sound(root, marks),
        0 <= i < root.scenes.len(),
    ensures
        apply_plan(root, marks_plan(marks)).scene_valid(crate::plan::scene_mapped(root.scenes[i], marks_plan(marks))),
{
    reveal(RootView::valid);
    let plan = marks_plan(marks);
    let s = root.scenes[i];
    assert(root.scene_valid(s));
    let mapped = crate::plan::scene_mapped(s, plan);
    assert forall|k: int| 0 <= k < mapped.nodes.len() implies (#[trigger] mapped.nodes[k])
        < apply_plan(root, marks_plan(marks)).nodes.len() by {
        let r = s.nodes[k];
        assert(scene_mentions(root, i, r));
        lemma_node_target(root, marks, r);
    }
}

/// After the plan of sound marks is carried out, every node is valid.
proof fn lemma_round_nodes(root: RootView, marks: Marks, i: int)
    requires
        root.valid(),
        sound(root, marks),
        0 <= i < root.nodes.len(),
    ensures
        apply_plan(root, marks_plan(marks)).node_valid(crate::plan::node_mapped(root.nodes[i], marks_plan(marks))),
{
    reveal(RootView::valid);
    let plan = marks_plan(marks);
    let n = root.nodes[i];
    assert(root.node_valid(n));
    let mapped = crate::plan::node_mapped(n, plan);
    assert forall|k: int| 0 <= k < mapped.children.len() implies (#[trigger] mapped.children[k])
        < apply_plan(root, marks_plan(marks)).nodes.len() by {
        let r = n.children[k];
        assert(node_mentions_node(root, i, r));
        lemma_node_target(root, marks, r);
    }
    if let Some(r) = n.mesh {
        assert(node_mentions_mesh(root, i, r));
        lemma_mesh_target(root, marks, r);
    }
}

/// After the plan of sound marks is carried out, every mesh is valid.
proof fn lemma_round_meshes(root: RootView, marks: Marks, i: int)
    requires
        root.valid(),
        sound(root, marks),
        0 <= i < root.meshes.len(),
    ensures
        apply_plan(root, marks_plan(marks)).mesh_valid(crate::plan::mesh_mapped(root.meshes[i], marks_plan(marks))),
{
    reveal(RootView::valid);
    let plan = marks_plan(marks);
    let after = apply_plan(root, marks_plan(marks));
    let m = root.meshes[i];
    assert(root.mesh_valid(m));
    let mapped = crate::plan::mesh_mapped(m, plan);
    assert forall|q: int| 0 <= q < mapped.primitives.len() implies after.primitive_valid(
        #[trigger] mapped.primitives[q],
    ) by {
        let p = m.primitives[q];
        assert(root.primitive_valid(p));
        let pm = mapped.primitives[q];
        assert(pm == crate::plan::primitive_mapped(p, plan));
        assert forall|a: int| 0 <= a < pm.attributes.len() implies (#[trigger] pm.attributes[a]).accessor
            < after.accessors.len() by {
            let r = p.attributes[a].accessor;
            assert(attribute_mentions(root, i, q, a, r));
            assert(primitive_mentions_accessor(root, i, q, r));
            assert(mesh_mentions_accessor(root, i, r));
            lemma_accessor_target(root, marks, r);
        }
        if let Some(r) = p.indices {
            assert(primitive_mentions_accessor(root, i, q, r));
            assert(mesh_mentions_accessor(root, i, r));
            lemma_accessor_target(root, marks, r);
        }
        if let Some(r) = p.material {
            assert(primitive_mentions_material(root, i, q, r));
            assert(mesh_mentions_material(root, i, r));
            lemma_material_target(root, marks, r);
        }
    }
}

/// After the plan of sound marks is carried out, every material is valid.
proof fn lemma_round_materials(root: RootView, marks: Marks, i: int)
    requires
        root.valid(),
        sound(root, marks),
        0 <= i < root.materials.len(),
    ensures
        apply_plan(root, marks_plan(marks)).material_valid(crate::plan::material_mapped(root.materials[i], marks_plan(marks))),
{
    reveal(RootView::valid);
    let m = root.materials[i];
    assert(root.material_valid(m));
    if let Some(p) = m.pbr {
        if let Some(t) = p.base_color {
            assert(material_mentions(root, i, t.texture));
            lemma_texture_target(root, marks, t.texture);
        }
        if let Some(t) = p.metallic_roughness {
            assert(material_mentions(root, i, t.texture));
            lemma_texture_target(root, marks, t.texture);
        }
    }
    if let Some(t) = m.normal {
        assert(material_mentions(root, i, t.texture));
        lemma_texture_target(root, marks, t.texture);
    }
    if let Some(t) = m.occlusion {
        assert(material_mentions(root, i, t.texture));
        lemma_texture_target(root, marks, t.texture);
    }
    if let Some(t) = m.emissive {
        assert(material_mentions(root, i, t.texture));
        lemma_texture_target(root, marks, t.texture);
    }
}

/// The plan of sound marks leaves no reference dangling.
pub proof fn lemma_marks_cover(root: RootView, marks: Marks)
    requires
        root.valid(),
        sound(root, marks),
    ensures
        marks_plan(marks).fits(root),
        covers(root, marks_plan(marks)),
{
    let plan = marks_plan(marks);
    let after = apply_plan(root, plan);
    assert forall|p: int, k: int|
        0 <= p < root.nodes.len() && plan.nodes.keep[p] && 0 <= k < root.nodes[p].children.len() implies 0
            <= #[trigger] crate::acyclic::child(root.nodes, p, k) < root.nodes.len()
            && plan.nodes.keep[crate::acyclic::child(root.nodes, p, k)]
            && plan.nodes.table[crate::acyclic::child(root.nodes, p, k)] == count(
            plan.nodes.keep,
            crate::acyclic::child(root.nodes, p, k),
        ) by {
        reveal(RootView::valid);
        assert(root.node_valid(root.nodes[p]));
        let c = root.nodes[p].children[k];
        assert(c < root.nodes.len());
        assert(node_mentions_node(root, p, c));
        assert(marks.nodes[c as int]);
        lemma_ranked(marks.nodes, c as int);
    }
    assert forall|i: int| 0 <= i < root.scenes.len() implies after.scene_valid(
        #[trigger] crate::plan::scene_mapped(root.scenes[i], plan),
    ) by {
        lemma_round_scenes(root, marks, i);
    }
    assert forall|i: int| 0 <= i < root.nodes.len() && plan.nodes.keep[i] implies after.node_valid(
        #[trigger] crate::plan::node_mapped(root.nodes[i], plan),
    ) by {
        lemma_round_nodes(root, marks, i);
    }
    assert forall|i: int| 0 <= i < root.meshes.len() && plan.meshes.keep[i] implies after.mesh_valid(
        #[trigger] crate::plan::mesh_mapped(root.meshes[i], plan),
    ) by {
        lemma_round_meshes(root, marks, i);
    }
    assert forall|i: int|
        0 <= i < root.materials.len() && plan.materials.keep[i] implies after.material_valid(
        #[trigger] crate::plan::material_mapped(root.materials[i], plan),
    ) by {
        lemma_round_materials(root, marks, i);
    }
}

/// A round of pruning leaves no reference dangling.
pub proof fn lemma_prune_covers(root: RootView)
    requires
        root.valid(),
    ensures
        prune_plan(root).fits(root),
        covers(root, prune_plan(root)),
{
    lemma_marks_cover(root, prune_marks(root));
}

/// A round of pruning on a valid description gives a valid description.
pub proof fn lemma_round_valid(root: RootView)
    requires
        root.valid(),
        root.ok(),
    ensures
        prune_round(root).valid(),
        prune_round(root).ok(),
        prune_round(root).buffers == root.buffers,
{
    lemma_prune_covers(root);
    lemma_apply_valid(root, prune_plan(root));
    lemma_apply_ok(root, prune_plan(root));
}

/// Pruning a valid description gives a valid description.
pub proof fn lemma_prune_valid(root: RootView, fuel: nat)
    requires
        root.valid(),
        root.ok(),
    ensures
        prune_spec(root, fuel).valid(),
        prune_spec(root, fuel).ok(),
        prune_spec(root, fuel).buffers == root.buffers,
    decreases fuel,
{
    if fuel == 0 || settled(root) {
    } else {
        lemma_round_valid(root);
        lemma_prune_valid(prune_round(root), (fuel - 1) as nat);
    }
}

/// A round that removes something leaves fewer entities.
pub proof fn lemma_round_shrinks(root: RootView)
    requires
        !settled(root),
    ensures
        entity_count(prune_round(root)) < entity_count(root),
{
    lemma_marked_lens(root, prune_marks(root));
    lemma_count_bound(node_marks(root), root.nodes.len() as int);
    lemma_count_bound(mesh_marks(root), root.meshes.len() as int);
    lemma_count_bound(material_marks(root), root.materials.len() as int);
    lemma_count_bound(texture_marks(root), root.textures.len() as int);
    lemma_count_bound(accessor_marks(root), root.accessors.len() as int);
    if !all_kept(node_marks(root)) {
        let i = choose|i: int| 0 <= i < node_marks(root).len() && !#[trigger] node_marks(root)[i];
        lemma_count_drops(node_marks(root), i);
    } else if !all_kept(mesh_marks(root)) {
        let i = choose|i: int| 0 <= i < mesh_marks(root).len() && !#[trigger] mesh_marks(root)[i];
        lemma_count_drops(mesh_marks(root), i);
    } else if !all_kept(material_marks(root)) {
        let i = choose|i: int| 0 <= i < material_marks(root).len() && !#[trigger] material_marks(root)[i];
        lemma_count_drops(material_marks(root), i);
    } else if !all_kept(texture_marks(root)) {
        let i = choose|i: int| 0 <= i < texture_marks(root).len() && !#[trigger] texture_marks(root)[i];
        lemma_count_drops(texture_marks(root), i);
    } else {
        let i = choose|i: int| 0 <= i < accessor_marks(root).len() && !#[trigger] accessor_marks(root)[i];
        lemma_count_drops(accessor_marks(root), i);
    }
}

/// With as many rounds as there are entities, pruning ends with every
/// entity referred to.
pub proof fn lemma_prune_settles(root: RootView, fuel: nat)
    requires
        fuel >= entity_count(root),
    ensures
        settled(prune_spec(root, fuel)),
    decreases fuel,
{
    if settled(root) {
    } else if fuel == 0 {
        assert(all_kept(node_marks(root)));
    } else {
        lemma_round_shrinks(root);
        lemma_prune_settles(prune_round(root), (fuel - 1) as nat);
    }
}

/// Pruning leaves nothing to prune: in the pruned description every node,
/// mesh, material, texture and accessor is referred to.
pub proof fn lemma_pruned_settled(root: RootView)
    ensures
        settled(pruned(root)),
{
    lemma_prune_settles(root, entity_count(root));
}

/// A description in which every entity is referred to is its own pruned
/// description.
pub proof fn lemma_prune_fixed_point(root: RootView)
    requires
        settled(root),
    ensures
        pruned(root) == root,
{
}

/// Pruning twice gives what pruning once gives.
pub proof fn lemma_prune_idempotent(root: RootView)
    ensures
        pruned(pruned(root)) == pruned(root),
{
    lemma_pruned_settled(root);
    lemma_prune_fixed_point(pruned(root));
}

/// The plan for one kind of entity that keeps the marked entries.
pub fn plan_of(keep: Vec<bool>) -> (r: KindPlan)
    ensures
        r@ == kind_plan(keep@),
{
    let table = rank_table(&keep);
    proof {
        assert forall|i: int| 0 <= i < keep.len() implies #[trigger] table@[i] == rank_seq(keep@)[i] by {
            lemma_count_bound(keep@, i);
        }
        assert(table@ =~= rank_seq(keep@));
    }
    KindPlan { keep, table }
}

impl Root {
    /// Makes the plan of one round of pruning.
    pub fn prune_plan(&self) -> (r: Plan)
        requires
            self@.valid(),
        ensures
            r@ == prune_plan(self@),
    {
        Plan {
            nodes: plan_of(self.mark_nodes()),
            meshes: plan_of(self.mark_meshes()),
            materials: plan_of(self.mark_materials()),
            textures: plan_of(self.mark_textures()),
            accessors: plan_of(self.mark_accessors()),
        }
    }
}

/// Prunes a document: removes the nodes, meshes, materials, textures and
/// accessors that nothing refers to, and again those that nothing refers
/// to any more, until every one that is left is referred to.
pub fn prune(doc: &mut Document)
    requires
        old(doc)@.wf(),
    ensures
        final(doc)@.wf(),
        final(doc)@.root == pruned(old(doc)@.root),
        final(doc)@.data == old(doc)@.data,
{
    let mut fuel: u128 = doc.root.nodes.len() as u128 + doc.root.meshes.len() as u128
        + doc.root.materials.len() as u128 + doc.root.textures.len() as u128
        + doc.root.accessors.len() as u128;
    while fuel > 0
        invariant
            doc@.wf(),
            doc@.data == old(doc)@.data,
            prune_spec(doc@.root, fuel as nat) == pruned(old(doc)@.root),
        decreases fuel,
    {
        let plan = doc.root.prune_plan();
        if keeps_all(&plan.nodes.keep) && keeps_all(&plan.meshes.keep) && keeps_all(&plan.materials.keep)
            && keeps_all(&plan.textures.keep) && keeps_all(&plan.accessors.keep) {
            return ;
        }
        proof {
            lemma_round_valid(doc@.root);
        }
        let next = apply(&doc.root, &plan);
        doc.root = next;
        fuel -= 1;
    }
}

} // verus!
