//! Plans: which entities of a description stay, and the new index of each,
//! with the description that carrying out a plan gives.
use vstd::prelude::*;
use crate::bytes::clone_bytes;
use crate::compact::{
    kept_len, lemma_select_from, lemma_select_len, remap, remap_opt, renumber, renumber_opt, select,
    selected,
};
use crate::acyclic::{keeps_children, lemma_acyclic_selected};
use crate::document::{all_below, below, ref_below};
use crate::entities::{
    clone_texts, opt_view, views, Accessor, AccessorView, Asset, Attribute, AttributeView, BufferDesc,
    BufferView, Image, Material, MaterialView, Mesh, MeshView, Node, NodeView, Pbr, PbrView, Primitive,
    PrimitiveView, Root, RootView, Sampler, Scene, SceneView, Texture, TextureRef, TextureRefView,
    TextureView,
};
use crate::json::duplicate_members;

verus! {

/// The plan for one kind of entity: which entries stay, and the new index
/// of each entry.
#[derive(Debug, PartialEq, Eq)]
pub struct KindPlan {
    pub keep: Vec<bool>,
    pub table: Vec<usize>,
}

/// The mathematical value of a [`KindPlan`].
pub struct KindPlanView {
    pub keep: Seq<bool>,
    pub table: Seq<usize>,
}

impl View for KindPlan {
    type V = KindPlanView;

    open spec fn view(&self) -> KindPlanView {
        KindPlanView { keep: self.keep@, table: self.table@ }
    }
}

impl KindPlanView {
    /// Whether the plan is one for a list of `n` entries.
    pub open spec fn fits(self, n: nat) -> bool {
        self.keep.len() == n && self.table.len() == n
    }
}

/// A plan for the kinds of entity that transforms remove or merge.
#[derive(Debug, PartialEq, Eq)]
pub struct Plan {
    pub nodes: KindPlan,
    pub meshes: KindPlan,
    pub materials: KindPlan,
    pub textures: KindPlan,
    pub accessors: KindPlan,
}

/// The mathematical value of a [`Plan`].
pub struct PlanView {
    pub nodes: KindPlanView,
    pub meshes: KindPlanView,
    pub materials: KindPlanView,
    pub textures: KindPlanView,
    pub accessors: KindPlanView,
}

impl View for Plan {
    type V = PlanView;

    open spec fn view(&self) -> PlanView {
        PlanView {
            nodes: self.nodes@,
            meshes: self.meshes@,
            materials: self.materials@,
            textures: self.textures@,
            accessors: self.accessors@,
        }
    }
}

impl PlanView {
    /// Whether the plan is one for the description `root`.
    pub open spec fn fits(self, root: RootView) -> bool {
        &&& self.nodes.fits(root.nodes.len())
        &&& self.meshes.fits(root.meshes.len())
        &&& self.materials.fits(root.materials.len())
        &&& self.textures.fits(root.textures.len())
        &&& self.accessors.fits(root.accessors.len())
    }
}

/// The scene with its references renumbered.
pub open spec fn scene_mapped(s: SceneView, plan: PlanView) -> SceneView {
    SceneView { nodes: remap(s.nodes, plan.nodes.table), props: s.props }
}

/// The node with its references renumbered.
pub open spec fn node_mapped(n: NodeView, plan: PlanView) -> NodeView {
    NodeView {
        children: remap(n.children, plan.nodes.table),
        mesh: remap_opt(n.mesh, plan.meshes.table),
        extensions: n.extensions,
        props: n.props,
    }
}

/// The attribute with its accessor renumbered.
pub open spec fn attribute_mapped(a: AttributeView, plan: PlanView) -> AttributeView {
    AttributeView { name: a.name, accessor: plan.accessors.table[a.accessor as int] }
}

/// The primitive with its references renumbered.
pub open spec fn primitive_mapped(p: PrimitiveView, plan: PlanView) -> PrimitiveView {
    PrimitiveView {
        attributes: Seq::new(p.attributes.len(), |i: int| attribute_mapped(p.attributes[i], plan)),
        indices: remap_opt(p.indices, plan.accessors.table),
        material: remap_opt(p.material, plan.materials.table),
        props: p.props,
    }
}

/// The mesh with the references of its primitives renumbered.
pub open spec fn mesh_mapped(m: MeshView, plan: PlanView) -> MeshView {
    MeshView {
        primitives: Seq::new(m.primitives.len(), |i: int| primitive_mapped(m.primitives[i], plan)),
        props: m.props,
    }
}

/// The reference to a texture, renumbered.
pub open spec fn ref_mapped(r: Option<TextureRefView>, plan: PlanView) -> Option<TextureRefView> {
    match r {
        Some(t) => Some(TextureRefView { texture: plan.textures.table[t.texture as int], props: t.props }),
        None => None,
    }
}

/// The material with its references renumbered.
pub open spec fn material_mapped(m: MaterialView, plan: PlanView) -> MaterialView {
    MaterialView {
        pbr: match m.pbr {
            Some(p) => Some(
                PbrView {
                    base_color: ref_mapped(p.base_color, plan),
                    metallic_roughness: ref_mapped(p.metallic_roughness, plan),
                    props: p.props,
                },
            ),
            None => None,
        },
        normal: ref_mapped(m.normal, plan),
        occlusion: ref_mapped(m.occlusion, plan),
        emissive: ref_mapped(m.emissive, plan),
        extensions: m.extensions,
        props: m.props,
    }
}

/// Every scene of `root`, renumbered.
pub open spec fn scenes_mapped(root: RootView, plan: PlanView) -> Seq<SceneView> {
    Seq::new(root.scenes.len(), |i: int| scene_mapped(root.scenes[i], plan))
}

/// Every node of `root`, renumbered.
pub open spec fn nodes_mapped(root: RootView, plan: PlanView) -> Seq<NodeView> {
    Seq::new(root.nodes.len(), |i: int| node_mapped(root.nodes[i], plan))
}

/// Every mesh of `root`, renumbered.
pub open spec fn meshes_mapped(root: RootView, plan: PlanView) -> Seq<MeshView> {
    Seq::new(root.meshes.len(), |i: int| mesh_mapped(root.meshes[i], plan))
}

/// Every material of `root`, renumbered.
pub open spec fn materials_mapped(root: RootView, plan: PlanView) -> Seq<MaterialView> {
    Seq::new(root.materials.len(), |i: int| material_mapped(root.materials[i], plan))
}

/// The description that carrying out `plan` on `root` gives: of the nodes,
/// meshes, materials, textures and accessors those that stay, in their
/// order, and every reference to one of them renumbered. Nothing else
/// changes.
pub open spec fn apply_plan(root: RootView, plan: PlanView) -> RootView {
    RootView {
        asset: root.asset,
        scene: root.scene,
        scenes: scenes_mapped(root, plan),
        nodes: selected(nodes_mapped(root, plan), plan.nodes.keep),
        meshes: selected(meshes_mapped(root, plan), plan.meshes.keep),
        materials: selected(materials_mapped(root, plan), plan.materials.keep),
        textures: selected(root.textures, plan.textures.keep),
        images: root.images,
        samplers: root.samplers,
        accessors: selected(root.accessors, plan.accessors.keep),
        views: root.views,
        buffers: root.buffers,
        extensions_used: root.extensions_used,
        extensions_required: root.extensions_required,
        extensions: root.extensions,
        props: root.props,
    }
}

/// Renumbers the references of a scene.
fn map_scene(s: &Scene, plan: &Plan) -> (r: Scene)
    requires
        all_below(s@.nodes, plan@.nodes.table.len()),
    ensures
        r@ == scene_mapped(s@, plan@),
{
    Scene { nodes: renumber(&s.nodes, &plan.nodes.table), props: duplicate_members(&s.props) }
}

/// Renumbers the references of a node.
fn map_node(n: &Node, plan: &Plan) -> (r: Node)
    requires
        all_below(n@.children, plan@.nodes.table.len()),
        below(n@.mesh, plan@.meshes.table.len()),
    ensures
        r@ == node_mapped(n@, plan@),
{
    Node {
        children: renumber(&n.children, &plan.nodes.table),
        mesh: renumber_opt(n.mesh, &plan.meshes.table),
        extensions: duplicate_members(&n.extensions),
        props: duplicate_members(&n.props),
    }
}

/// Whether the references of the primitive are within the tables of the
/// plan.
pub open spec fn primitive_within(p: PrimitiveView, plan: PlanView) -> bool {
    &&& forall|i: int|
        0 <= i < p.attributes.len() ==> (#[trigger] p.attributes[i]).accessor < plan.accessors.table.len()
    &&& below(p.indices, plan.accessors.table.len())
    &&& below(p.material, plan.materials.table.len())
}

/// Renumbers the references of a primitive.
fn map_primitive(p: &Primitive, plan: &Plan) -> (r: Primitive)
    requires
        primitive_within(p@, plan@),
    ensures
        r@ == primitive_mapped(p@, plan@),
{
    let mut attributes: Vec<Attribute> = Vec::new();
    let mut i: usize = 0;
    while i < p.attributes.len()
        invariant
            i <= p.attributes.len(),
            attributes.len() == i,
            primitive_within(p@, plan@),
            forall|j: int|
                0 <= j < i ==> (#[trigger] attributes@[j])@ == attribute_mapped(p@.attributes[j], plan@),
        decreases p.attributes.len() - i,
    {
        assert(p@.attributes[i as int] == p.attributes@[i as int]@);
        attributes.push(
            Attribute {
                name: clone_bytes(&p.attributes[i].name),
                accessor: plan.accessors.table[p.attributes[i].accessor],
            },
        );
        i += 1;
    }
    assert(views(attributes@) =~= primitive_mapped(p@, plan@).attributes);
    Primitive {
        attributes,
        indices: renumber_opt(p.indices, &plan.accessors.table),
        material: renumber_opt(p.material, &plan.materials.table),
        props: duplicate_members(&p.props),
    }
}

/// Whether the references of the primitives of the mesh are within the
/// tables of the plan.
pub open spec fn mesh_within(m: MeshView, plan: PlanView) -> bool {
    forall|i: int| 0 <= i < m.primitives.len() ==> primitive_within(#[trigger] m.primitives[i], plan)
}

/// Renumbers the references of the primitives of a mesh.
fn map_mesh(m: &Mesh, plan: &Plan) -> (r: Mesh)
    requires
        mesh_within(m@, plan@),
    ensures
        r@ == mesh_mapped(m@, plan@),
{
    let mut primitives: Vec<Primitive> = Vec::new();
    let mut i: usize = 0;
    while i < m.primitives.len()
        invariant
            i <= m.primitives.len(),
            primitives.len() == i,
            mesh_within(m@, plan@),
            forall|j: int|
                0 <= j < i ==> (#[trigger] primitives@[j])@ == primitive_mapped(m@.primitives[j], plan@),
        decreases m.primitives.len() - i,
    {
        assert(m@.primitives[i as int] == m.primitives@[i as int]@);
        primitives.push(map_primitive(&m.primitives[i], plan));
        i += 1;
    }
    assert(views(primitives@) =~= mesh_mapped(m@, plan@).primitives);
    Mesh { primitives, props: duplicate_members(&m.props) }
}

/// Renumbers a reference to a texture.
fn map_ref(r: &Option<TextureRef>, plan: &Plan) -> (m: Option<TextureRef>)
    requires
        ref_below(opt_view(*r), plan@.textures.table.len()),
    ensures
        opt_view(m) == ref_mapped(opt_view(*r), plan@),
{
    match r {
        Some(t) => Some(
            TextureRef { texture: plan.textures.table[t.texture], props: duplicate_members(&t.props) },
        ),
        None => None,
    }
}

/// Whether the references of the material are within the table of the
/// plan.
pub open spec fn material_within(m: MaterialView, plan: PlanView) -> bool {
    let n = plan.textures.table.len();
    &&& match m.pbr {
        Some(p) => ref_below(p.base_color, n) && ref_below(p.metallic_roughness, n),
        None => true,
    }
    &&& ref_below(m.normal, n)
    &&& ref_below(m.occlusion, n)
    &&& ref_below(m.emissive, n)
}

/// Renumbers the references of a material.
fn map_material(m: &Material, plan: &Plan) -> (r: Material)
    requires
        material_within(m@, plan@),
    ensures
        r@ == material_mapped(m@, plan@),
{
    let pbr = match &m.pbr {
        Some(p) => Some(
            Pbr {
                base_color: map_ref(&p.base_color, plan),
                metallic_roughness: map_ref(&p.metallic_roughness, plan),
                props: duplicate_members(&p.props),
            },
        ),
        None => None,
    };
    Material {
        pbr,
        normal: map_ref(&m.normal, plan),
        occlusion: map_ref(&m.occlusion, plan),
        emissive: map_ref(&m.emissive, plan),
        extensions: duplicate_members(&m.extensions),
        props: duplicate_members(&m.props),
    }
}

/// The nodes that stay, renumbered.
fn apply_nodes(root: &Root, plan: &Plan) -> (r: Vec<Node>)
    requires
        root@.valid(),
        plan@.fits(root@),
    ensures
        views(r@) == selected(nodes_mapped(root@, plan@), plan@.nodes.keep),
{
    proof {
        reveal(RootView::valid);
    }
    let ghost all = nodes_mapped(root@, plan@);
    let mut out: Vec<Node> = Vec::new();
    let mut i: usize = 0;
    assert(views(out@) =~= select(all, plan@.nodes.keep, 0));
    while i < root.nodes.len()
        invariant
            i <= root.nodes.len(),
            root@.valid(),
            plan@.fits(root@),
            all == nodes_mapped(root@, plan@),
            views(out@) == select(all, plan@.nodes.keep, i as int),
        decreases root.nodes.len() - i,
    {
        proof {
            reveal(RootView::valid);
        }
        assert(root@.nodes[i as int] == root.nodes@[i as int]@);
        assert(root@.node_valid(root@.nodes[i as int]));
        let ghost before = views(out@);
        if plan.nodes.keep[i] {
            out.push(map_node(&root.nodes[i], plan));
            assert(views(out@) =~= before.push(all[i as int]));
        }
        i += 1;
    }
    out
}

/// The meshes that stay, renumbered.
fn apply_meshes(root: &Root, plan: &Plan) -> (r: Vec<Mesh>)
    requires
        root@.valid(),
        plan@.fits(root@),
    ensures
        views(r@) == selected(meshes_mapped(root@, plan@), plan@.meshes.keep),
{
    proof {
        reveal(RootView::valid);
    }
    let ghost all = meshes_mapped(root@, plan@);
    let mut out: Vec<Mesh> = Vec::new();
    let mut i: usize = 0;
    assert(views(out@) =~= select(all, plan@.meshes.keep, 0));
    while i < root.meshes.len()
        invariant
            i <= root.meshes.len(),
            root@.valid(),
            plan@.fits(root@),
            all == meshes_mapped(root@, plan@),
            views(out@) == select(all, plan@.meshes.keep, i as int),
        decreases root.meshes.len() - i,
    {
        proof {
            reveal(RootView::valid);
        }
        assert(root@.meshes[i as int] == root.meshes@[i as int]@);
        assert(root@.mesh_valid(root@.meshes[i as int]));
        let ghost before = views(out@);
        if plan.meshes.keep[i] {
            out.push(map_mesh(&root.meshes[i], plan));
            assert(views(out@) =~= before.push(all[i as int]));
        }
        i += 1;
    }
    out
}

/// The materials that stay, renumbered.
fn apply_materials(root: &Root, plan: &Plan) -> (r: Vec<Material>)
    requires
        root@.valid(),
        plan@.fits(root@),
    ensures
        views(r@) == selected(materials_mapped(root@, plan@), plan@.materials.keep),
{
    proof {
        reveal(RootView::valid);
    }
    let ghost all = materials_mapped(root@, plan@);
    let mut out: Vec<Material> = Vec::new();
    let mut i: usize = 0;
    assert(views(out@) =~= select(all, plan@.materials.keep, 0));
    while i < root.materials.len()
        invariant
            i <= root.materials.len(),
            root@.valid(),
            plan@.fits(root@),
            all == materials_mapped(root@, plan@),
            views(out@) == select(all, plan@.materials.keep, i as int),
        decreases root.materials.len() - i,
    {
        proof {
            reveal(RootView::valid);
        }
        assert(root@.materials[i as int] == root.materials@[i as int]@);
        assert(root@.material_valid(root@.materials[i as int]));
        let ghost before = views(out@);
        if plan.materials.keep[i] {
            out.push(map_material(&root.materials[i], plan));
            assert(views(out@) =~= before.push(all[i as int]));
        }
        i += 1;
    }
    out
}

/// The textures that stay.
fn apply_textures(root: &Root, plan: &Plan) -> (r: Vec<Texture>)
    requires
        plan@.fits(root@),
    ensures
        views(r@) == selected(root@.textures, plan@.textures.keep),
{
    let mut out: Vec<Texture> = Vec::new();
    let mut i: usize = 0;
    assert(views(out@) =~= select(root@.textures, plan@.textures.keep, 0));
    while i < root.textures.len()
        invariant
            i <= root.textures.len(),
            plan@.fits(root@),
            views(out@) == select(root@.textures, plan@.textures.keep, i as int),
        decreases root.textures.len() - i,
    {
        assert(root@.textures[i as int] == root.textures@[i as int]@);
        let ghost before = views(out@);
        if plan.textures.keep[i] {
            out.push(root.textures[i].duplicate());
            assert(views(out@) =~= before.push(root@.textures[i as int]));
        }
        i += 1;
    }
    out
}

/// The accessors that stay.
fn apply_accessors(root: &Root, plan: &Plan) -> (r: Vec<Accessor>)
    requires
        plan@.fits(root@),
    ensures
        views(r@) == selected(root@.accessors, plan@.accessors.keep),
{
    let mut out: Vec<Accessor> = Vec::new();
    let mut i: usize = 0;
    assert(views(out@) =~= select(root@.accessors, plan@.accessors.keep, 0));
    while i < root.accessors.len()
        invariant
            i <= root.accessors.len(),
            plan@.fits(root@),
            views(out@) == select(root@.accessors, plan@.accessors.keep, i as int),
        decreases root.accessors.len() - i,
    {
        assert(root@.accessors[i as int] == root.accessors@[i as int]@);
        let ghost before = views(out@);
        if plan.accessors.keep[i] {
            out.push(root.accessors[i].duplicate());
            assert(views(out@) =~= before.push(root@.accessors[i as int]));
        }
        i += 1;
    }
    out
}

/// Every scene, renumbered.
fn apply_scenes(root: &Root, plan: &Plan) -> (r: Vec<Scene>)
    requires
        root@.valid(),
        plan@.fits(root@),
    ensures
        views(r@) == scenes_mapped(root@, plan@),
{
    let mut out: Vec<Scene> = Vec::new();
    let mut i: usize = 0;
    while i < root.scenes.len()
        invariant
            i <= root.scenes.len(),
            out.len() == i,
            root@.valid(),
            plan@.fits(root@),
            forall|j: int| 0 <= j < i ==> (#[trigger] out@[j])@ == scene_mapped(root@.scenes[j], plan@),
        decreases root.scenes.len() - i,
    {
        proof {
            reveal(RootView::valid);
        }
        assert(root@.scenes[i as int] == root.scenes@[i as int]@);
        assert(root@.scene_valid(root@.scenes[i as int]));
        out.push(map_scene(&root.scenes[i], plan));
        i += 1;
    }
    assert(views(out@) =~= scenes_mapped(root@, plan@));
    out
}

/// Carries out a plan.
pub fn apply(root: &Root, plan: &Plan) -> (r: Root)
    requires
        root@.valid(),
        plan@.fits(root@),
    ensures
        r@ == apply_plan(root@, plan@),
{
    Root {
        asset: root.asset.duplicate(),
        scene: root.scene,
        scenes: apply_scenes(root, plan),
        nodes: apply_nodes(root, plan),
        meshes: apply_meshes(root, plan),
        materials: apply_materials(root, plan),
        textures: apply_textures(root, plan),
        images: Image::duplicate_all(&root.images),
        samplers: Sampler::duplicate_all(&root.samplers),
        accessors: apply_accessors(root, plan),
        views: BufferView::duplicate_all(&root.views),
        buffers: BufferDesc::duplicate_all(&root.buffers),
        extensions_used: clone_texts(&root.extensions_used),
        extensions_required: clone_texts(&root.extensions_required),
        extensions: duplicate_members(&root.extensions),
        props: duplicate_members(&root.props),
    }
}

/// Whether the plan leaves no reference dangling: renumbered, every scene
/// and every node, mesh and material that stays is valid among what stays,
/// and the nodes that stay keep their children.
pub open spec fn covers(root: RootView, plan: PlanView) -> bool {
    let after = apply_plan(root, plan);
    &&& keeps_children(root.nodes, plan.nodes.keep, plan.nodes.table)
    &&& forall|i: int|
        0 <= i < root.scenes.len() ==> after.scene_valid(#[trigger] scene_mapped(root.scenes[i], plan))
    &&& forall|i: int|
        0 <= i < root.nodes.len() && plan.nodes.keep[i] ==> after.node_valid(
            #[trigger] node_mapped(root.nodes[i], plan),
        )
    &&& forall|i: int|
        0 <= i < root.meshes.len() && plan.meshes.keep[i] ==> after.mesh_valid(
            #[trigger] mesh_mapped(root.meshes[i], plan),
        )
    &&& forall|i: int|
        0 <= i < root.materials.len() && plan.materials.keep[i] ==> after.material_valid(
            #[trigger] material_mapped(root.materials[i], plan),
        )
}

/// Carrying out a plan that leaves no reference dangling on a valid
/// description gives a valid description.
pub proof fn lemma_apply_valid(root: RootView, plan: PlanView)
    requires
        root.valid(),
        plan.fits(root),
        covers(root, plan),
    ensures
        apply_plan(root, plan).valid(),
{
    reveal(RootView::valid);
    let after = apply_plan(root, plan);
    lemma_acyclic_selected(root.nodes, nodes_mapped(root, plan), plan.nodes.keep, plan.nodes.table);
    assert forall|k: int| 0 <= k < after.scenes.len() implies after.scene_valid(
        #[trigger] after.scenes[k],
    ) by {
        assert(after.scenes[k] == scene_mapped(root.scenes[k], plan));
    }
    assert forall|k: int| 0 <= k < after.nodes.len() implies after.node_valid(#[trigger] after.nodes[k]) by {
        let all = nodes_mapped(root, plan);
        let i = lemma_select_from(all, plan.nodes.keep, all.len() as int, k);
        assert(all[i] == node_mapped(root.nodes[i], plan));
    }
    assert forall|k: int| 0 <= k < after.meshes.len() implies after.mesh_valid(
        #[trigger] after.meshes[k],
    ) by {
        let all = meshes_mapped(root, plan);
        let i = lemma_select_from(all, plan.meshes.keep, all.len() as int, k);
        assert(all[i] == mesh_mapped(root.meshes[i], plan));
    }
    assert forall|k: int| 0 <= k < after.materials.len() implies after.material_valid(
        #[trigger] after.materials[k],
    ) by {
        let all = materials_mapped(root, plan);
        let i = lemma_select_from(all, plan.materials.keep, all.len() as int, k);
        assert(all[i] == material_mapped(root.materials[i], plan));
    }
    assert forall|k: int| 0 <= k < after.textures.len() implies after.texture_valid(
        #[trigger] after.textures[k],
    ) by {
        let i = lemma_select_from(root.textures, plan.textures.keep, root.textures.len() as int, k);
        assert(root.texture_valid(root.textures[i]));
    }
    assert forall|k: int| 0 <= k < after.accessors.len() implies after.accessor_valid(
        #[trigger] after.accessors[k],
    ) by {
        let i = lemma_select_from(root.accessors, plan.accessors.keep, root.accessors.len() as int, k);
        assert(root.accessor_valid(root.accessors[i]));
    }
    assert forall|k: int| 0 <= k < after.images.len() implies after.image_valid(
        #[trigger] after.images[k],
    ) by {
        assert(root.image_valid(root.images[k]));
    }
    assert forall|k: int| 0 <= k < after.views.len() implies after.view_valid(#[trigger] after.views[k]) by {
        assert(root.view_valid(root.views[k]));
    }
    assert forall|k: int| 0 <= k < after.buffers.len() implies after.buffer_valid(
        #[trigger] after.buffers[k],
    ) by {
        assert(root.buffer_valid(root.buffers[k]));
    }
}

/// Carrying out a plan changes nothing of what is carried along with the
/// entities.
pub proof fn lemma_apply_ok(root: RootView, plan: PlanView)
    requires
        root.ok(),
        plan.fits(root),
    ensures
        apply_plan(root, plan).ok(),
{
    reveal(RootView::ok);
    let after = apply_plan(root, plan);
    assert forall|k: int| 0 <= k < after.scenes.len() implies (#[trigger] after.scenes[k]).ok() by {
        assert(root.scenes[k].ok());
    }
    assert forall|k: int| 0 <= k < after.nodes.len() implies (#[trigger] after.nodes[k]).ok() by {
        let all = nodes_mapped(root, plan);
        let i = lemma_select_from(all, plan.nodes.keep, all.len() as int, k);
        assert(root.nodes[i].ok());
    }
    assert forall|k: int| 0 <= k < after.meshes.len() implies (#[trigger] after.meshes[k]).ok() by {
        let all = meshes_mapped(root, plan);
        let i = lemma_select_from(all, plan.meshes.keep, all.len() as int, k);
        let m = root.meshes[i];
        assert(m.ok());
        assert forall|q: int| 0 <= q < all[i].primitives.len() implies (
        #[trigger] all[i].primitives[q]).ok() by {
            assert(m.primitives[q].ok());
        }
    }
    assert forall|k: int| 0 <= k < after.materials.len() implies (#[trigger] after.materials[k]).ok() by {
        let all = materials_mapped(root, plan);
        let i = lemma_select_from(all, plan.materials.keep, all.len() as int, k);
        let m = root.materials[i];
        assert(m.ok());
        reveal(MaterialView::ok);
    }
    assert forall|k: int| 0 <= k < after.textures.len() implies (#[trigger] after.textures[k]).ok() by {
        let i = lemma_select_from(root.textures, plan.textures.keep, root.textures.len() as int, k);
        assert(root.textures[i].ok());
    }
    assert forall|k: int| 0 <= k < after.accessors.len() implies (#[trigger] after.accessors[k]).ok() by {
        let i = lemma_select_from(root.accessors, plan.accessors.keep, root.accessors.len() as int, k);
        assert(root.accessors[i].ok());
    }
}

/// The plan for one kind of entity that keeps every entry where it is.
pub open spec fn identity_plan(n: nat) -> KindPlanView {
    KindPlanView { keep: Seq::new(n, |i: int| true), table: Seq::new(n, |i: int| i as usize) }
}

/// Whether the plan gives every entry a new index among the entries that
/// stay.
pub open spec fn bounded(kp: KindPlanView) -> bool {
    forall|r: int| 0 <= r < kp.table.len() ==> (#[trigger] kp.table[r]) < kept_len(kp.keep)
}

/// The plan that keeps every entry where it is gives every entry an index
/// among the entries that stay.
pub proof fn lemma_identity_bounded(n: nat)
    ensures
        bounded(identity_plan(n)),
        kept_len(identity_plan(n).keep) == n,
{
    crate::compact::lemma_count_all(identity_plan(n).keep, n as int);
}

/// Makes the plan that keeps every entry where it is.
pub fn keep_all(n: usize) -> (r: KindPlan)
    ensures
        r@ == identity_plan(n as nat),
{
    let mut keep: Vec<bool> = Vec::new();
    let mut table: Vec<usize> = Vec::new();
    let mut i: usize = 0;
    while i < n
        invariant
            i <= n,
            keep.len() == i,
            table.len() == i,
            forall|j: int| 0 <= j < i ==> #[trigger] keep@[j],
            forall|j: int| 0 <= j < i ==> #[trigger] table@[j] == j,
        decreases n - i,
    {
        keep.push(true);
        table.push(i);
        i += 1;
    }
    assert(keep@ =~= identity_plan(n as nat).keep);
    assert(table@ =~= identity_plan(n as nat).table);
    KindPlan { keep, table }
}

/// A plan that gives every entry of every kind an index among the entries
/// that stay leaves no reference dangling.
pub proof fn lemma_bounded_covers(root: RootView, plan: PlanView)
    requires
        root.valid(),
        plan.fits(root),
        plan.nodes == identity_plan(root.nodes.len()),
        bounded(plan.meshes),
        bounded(plan.materials),
        bounded(plan.textures),
        bounded(plan.accessors),
    ensures
        covers(root, plan),
{
    reveal(RootView::valid);
    let after = apply_plan(root, plan);
    lemma_identity_bounded(root.nodes.len());
    assert forall|p: int, k: int|
        0 <= p < root.nodes.len() && plan.nodes.keep[p] && 0 <= k < root.nodes[p].children.len() implies 0
            <= #[trigger] crate::acyclic::child(root.nodes, p, k) < root.nodes.len()
            && plan.nodes.keep[crate::acyclic::child(root.nodes, p, k)]
            && plan.nodes.table[crate::acyclic::child(root.nodes, p, k)] == crate::compact::count(
            plan.nodes.keep,
            crate::acyclic::child(root.nodes, p, k),
        ) by {
        assert(root.node_valid(root.nodes[p]));
        let c = root.nodes[p].children[k];
        assert(c < root.nodes.len());
        crate::compact::lemma_count_all(plan.nodes.keep, c as int);
    }
    lemma_select_len(nodes_mapped(root, plan), plan.nodes.keep, root.nodes.len() as int);
    lemma_select_len(meshes_mapped(root, plan), plan.meshes.keep, root.meshes.len() as int);
    lemma_select_len(materials_mapped(root, plan), plan.materials.keep, root.materials.len() as int);
    lemma_select_len(root.textures, plan.textures.keep, root.textures.len() as int);
    lemma_select_len(root.accessors, plan.accessors.keep, root.accessors.len() as int);
    assert forall|i: int| 0 <= i < root.scenes.len() implies after.scene_valid(
        #[trigger] scene_mapped(root.scenes[i], plan),
    ) by {
        assert(root.scene_valid(root.scenes[i]));
    }
    assert forall|i: int| 0 <= i < root.nodes.len() && plan.nodes.keep[i] implies after.node_valid(
        #[trigger] node_mapped(root.nodes[i], plan),
    ) by {
        assert(root.node_valid(root.nodes[i]));
    }
    assert forall|i: int| 0 <= i < root.meshes.len() && plan.meshes.keep[i] implies after.mesh_valid(
        #[trigger] mesh_mapped(root.meshes[i], plan),
    ) by {
        let m = root.meshes[i];
        assert(root.mesh_valid(m));
        let mapped = mesh_mapped(m, plan);
        assert forall|q: int| 0 <= q < mapped.primitives.len() implies after.primitive_valid(
            #[trigger] mapped.primitives[q],
        ) by {
            assert(root.primitive_valid(m.primitives[q]));
            let pm = mapped.primitives[q];
            assert forall|a: int| 0 <= a < pm.attributes.len() implies (
            #[trigger] pm.attributes[a]).accessor < after.accessors.len() by {
                assert(m.primitives[q].attributes[a].accessor < root.accessors.len());
            }
        }
    }
    assert forall|i: int|
        0 <= i < root.materials.len() && plan.materials.keep[i] implies after.material_valid(
        #[trigger] material_mapped(root.materials[i], plan),
    ) by {
        assert(root.material_valid(root.materials[i]));
    }
}

} // verus!
