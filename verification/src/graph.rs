//! The mutation primitives of the document graph: adding and removing
//! nodes and meshes, attaching extension payloads, and counting
//! references. Each leaves the document well formed, or leaves it alone.
use vstd::prelude::*;
use crate::compact::{all_kept, count, kept_len, lemma_count_all, lemma_count_bound};
use crate::document::{Document, DocumentView};
use crate::entities::{
    views, Material, MaterialView, Mesh, MeshView, Node, NodeView, Root, RootView, Texture, PROPS_DEPTH,
};
use crate::error::{Error, ErrorView, Malformed};
use crate::fields::texts_view;
use crate::json::{check, duplicate, duplicate_members, members_view, well_formed, Json, JsonView, Member, MemberView};
use crate::metadata::{with_name, with_payload};
use crate::plan::{apply, apply_plan, lemma_apply_ok, lemma_apply_valid, Plan, PlanView};
use crate::prune::{lemma_marks_cover, marks_plan, plan_of, sound, Marks};
use crate::references::{
    material_mentions, materials_mention, ref_is, texture_referenced, mesh_referenced, node_mentions_mesh, node_mentions_node, node_referenced, nodes_mention_mesh,
    nodes_mention_node, scene_mentions, scenes_mention,
};
use crate::registry::{accepts, capability_of, EntryView, Registry};

verus! {

impl Document {
    /// Decides whether the document is well formed.
    pub fn validate(&self) -> (r: bool)
        ensures
            r == self@.wf(),
    {
        if !self.root.check_ok() || !self.root.check() || self.data.len() != self.root.buffers.len() {
            return false;
        }
        let mut i: usize = 0;
        while i < self.data.len()
            invariant
                i <= self.data.len(),
                self.data.len() == self.root.buffers.len(),
                forall|j: int| 0 <= j < i ==> (#[trigger] self@.data[j]).len() == self@.root.buffers[j].length,
            decreases self.data.len() - i,
        {
            assert(self@.data[i as int] == self.data@[i as int]@);
            assert(self@.root.buffers[i as int] == self.root.buffers@[i as int]@);
            if self.data[i].len() != self.root.buffers[i].length {
                return false;
            }
            i += 1;
        }
        true
    }
}

/// The number of times `i` occurs among the first `n` entries of the
/// list.
pub open spec fn occurrences(list: Seq<usize>, i: usize, n: int) -> nat
    decreases n,
{
    if n <= 0 || n > list.len() {
        0
    } else if list[n - 1] == i {
        occurrences(list, i, n - 1) + 1
    } else {
        occurrences(list, i, n - 1)
    }
}

/// The number of references to node `i` from the first `n` scenes.
pub open spec fn scene_references(root: RootView, i: usize, n: int) -> nat
    decreases n,
{
    if n <= 0 || n > root.scenes.len() {
        0
    } else {
        scene_references(root, i, n - 1) + occurrences(
            root.scenes[n - 1].nodes,
            i,
            root.scenes[n - 1].nodes.len() as int,
        )
    }
}

/// The number of references to node `i` from the first `n` nodes.
pub open spec fn child_references(root: RootView, i: usize, n: int) -> nat
    decreases n,
{
    if n <= 0 || n > root.nodes.len() {
        0
    } else {
        child_references(root, i, n - 1) + occurrences(
            root.nodes[n - 1].children,
            i,
            root.nodes[n - 1].children.len() as int,
        )
    }
}

/// The number of references to node `i`: how often scenes list it as a
/// root and nodes list it as a child.
pub open spec fn node_references(root: RootView, i: usize) -> nat {
    scene_references(root, i, root.scenes.len() as int) + child_references(
        root,
        i,
        root.nodes.len() as int,
    )
}

/// The number of references to mesh `i` from the first `n` nodes.
pub open spec fn mesh_references_among(root: RootView, i: usize, n: int) -> nat
    decreases n,
{
    if n <= 0 || n > root.nodes.len() {
        0
    } else if root.nodes[n - 1].mesh == Some(i) {
        mesh_references_among(root, i, n - 1) + 1
    } else {
        mesh_references_among(root, i, n - 1)
    }
}

/// The number of references to mesh `i`: how many nodes have it.
pub open spec fn mesh_references(root: RootView, i: usize) -> nat {
    mesh_references_among(root, i, root.nodes.len() as int)
}

/// How often the reference is one to texture `i`: once or not at all.
pub open spec fn slot_references(r: Option<crate::entities::TextureRefView>, i: usize) -> nat {
    if ref_is(r, i) {
        1
    } else {
        0
    }
}

/// The number of slots in which the material holds texture `i`.
pub open spec fn material_references(m: MaterialView, i: usize) -> nat {
    (match m.pbr {
        Some(p) => slot_references(p.base_color, i) + slot_references(p.metallic_roughness, i),
        None => 0,
    }) + slot_references(m.normal, i) + slot_references(m.occlusion, i) + slot_references(m.emissive, i)
}

/// The number of references to texture `i` from the first `n` materials.
pub open spec fn texture_references_among(root: RootView, i: usize, n: int) -> nat
    decreases n,
{
    if n <= 0 || n > root.materials.len() {
        0
    } else {
        texture_references_among(root, i, n - 1) + material_references(root.materials[n - 1], i)
    }
}

/// The number of references to texture `i`: in how many slots materials
/// hold it.
pub open spec fn texture_references(root: RootView, i: usize) -> nat {
    texture_references_among(root, i, root.materials.len() as int)
}

/// The number that a count of references is reported as: itself, unless
/// it is more than the machine can count.
pub open spec fn reported(n: nat) -> usize {
    if n > usize::MAX {
        usize::MAX
    } else {
        n as usize
    }
}

/// An index occurs in a list as often as not at all exactly when the list
/// does not hold it.
proof fn lemma_occurrences(list: Seq<usize>, i: usize, n: int)
    requires
        0 <= n <= list.len(),
    ensures
        occurrences(list, i, n) > 0 <==> list.subrange(0, n).contains(i),
    decreases n,
{
    let pre = list.subrange(0, n);
    if n > 0 {
        lemma_occurrences(list, i, n - 1);
        let before = list.subrange(0, n - 1);
        if before.contains(i) {
            let w = choose|w: int| 0 <= w < before.len() && before[w] == i;
            assert(pre[w] == i);
        }
        if list[n - 1] == i {
            assert(pre[n - 1] == i);
        }
        if pre.contains(i) {
            let w = choose|w: int| 0 <= w < pre.len() && pre[w] == i;
            if w < n - 1 {
                assert(before[w] == i);
            }
        }
    }
}

proof fn lemma_scene_references(root: RootView, i: usize, n: int)
    requires
        0 <= n <= root.scenes.len(),
    ensures
        scene_references(root, i, n) > 0 <==> scenes_mention(root, n, i),
    decreases n,
{
    if n > 0 {
        lemma_scene_references(root, i, n - 1);
        let list = root.scenes[n - 1].nodes;
        lemma_occurrences(list, i, list.len() as int);
        assert(list.subrange(0, list.len() as int) =~= list);
        crate::references::lemma_scenes_step(root, n - 1, i);
    }
}

proof fn lemma_child_references(root: RootView, i: usize, n: int)
    requires
        0 <= n <= root.nodes.len(),
    ensures
        child_references(root, i, n) > 0 <==> nodes_mention_node(root, n, i),
    decreases n,
{
    if n > 0 {
        lemma_child_references(root, i, n - 1);
        let list = root.nodes[n - 1].children;
        lemma_occurrences(list, i, list.len() as int);
        assert(list.subrange(0, list.len() as int) =~= list);
        crate::references::lemma_nodes_node_step(root, n - 1, i);
    }
}

proof fn lemma_mesh_references_among(root: RootView, i: usize, n: int)
    requires
        0 <= n <= root.nodes.len(),
    ensures
        mesh_references_among(root, i, n) > 0 <==> nodes_mention_mesh(root, n, i),
    decreases n,
{
    if n > 0 {
        lemma_mesh_references_among(root, i, n - 1);
        crate::references::lemma_nodes_mesh_step(root, n - 1, i);
    }
}

proof fn lemma_texture_references_among(root: RootView, i: usize, n: int)
    requires
        0 <= n <= root.materials.len(),
    ensures
        texture_references_among(root, i, n) > 0 <==> materials_mention(root, n, i),
    decreases n,
{
    if n > 0 {
        lemma_texture_references_among(root, i, n - 1);
        crate::references::lemma_materials_step(root, n - 1, i);
    }
}

/// A node is referred to exactly when its count of references is not
/// zero; so is a mesh, and so is a texture. Pruning removes what has a
/// count of zero.
pub proof fn lemma_references(root: RootView, i: usize)
    ensures
        node_references(root, i) > 0 <==> node_referenced(root, i),
        mesh_references(root, i) > 0 <==> mesh_referenced(root, i),
        texture_references(root, i) > 0 <==> texture_referenced(root, i),
{
    lemma_scene_references(root, i, root.scenes.len() as int);
    lemma_child_references(root, i, root.nodes.len() as int);
    lemma_mesh_references_among(root, i, root.nodes.len() as int);
    lemma_texture_references_among(root, i, root.materials.len() as int);
}

/// Counts on from `acc` the reference, if it is one to texture `i`.
fn count_slot(r: &Option<crate::entities::TextureRef>, i: usize, acc: usize, Ghost(base): Ghost<nat>) -> (t: usize)
    requires
        acc == reported(base),
    ensures
        t == reported(base + slot_references(crate::entities::opt_view(*r), i)),
{
    match r {
        Some(x) => {
            if x.texture == i && acc < usize::MAX {
                acc + 1
            } else {
                acc
            }
        },
        None => acc,
    }
}

/// Counts on from `acc` the occurrences of `i` in the list.
fn count_in(list: &Vec<usize>, i: usize, acc: usize, Ghost(base): Ghost<nat>) -> (r: usize)
    requires
        acc == reported(base),
    ensures
        r == reported(base + occurrences(list@, i, list.len() as int)),
{
    let mut total = acc;
    let mut k: usize = 0;
    while k < list.len()
        invariant
            k <= list.len(),
            total == reported(base + occurrences(list@, i, k as int)),
        decreases list.len() - k,
    {
        if list[k] == i && total < usize::MAX {
            total += 1;
        }
        k += 1;
    }
    total
}

impl Root {
    /// Counts the references to node `i`.
    pub fn node_references(&self, i: usize) -> (r: usize)
        ensures
            r == reported(node_references(self@, i)),
    {
        let mut total: usize = 0;
        let mut s: usize = 0;
        while s < self.scenes.len()
            invariant
                s <= self.scenes.len(),
                total == reported(scene_references(self@, i, s as int)),
            decreases self.scenes.len() - s,
        {
            assert(self@.scenes[s as int] == self.scenes@[s as int]@);
            total = count_in(&self.scenes[s].nodes, i, total, Ghost(scene_references(self@, i, s as int)));
            s += 1;
        }
        let ghost from_scenes = scene_references(self@, i, self@.scenes.len() as int);
        let mut p: usize = 0;
        while p < self.nodes.len()
            invariant
                p <= self.nodes.len(),
                from_scenes == scene_references(self@, i, self@.scenes.len() as int),
                total == reported(from_scenes + child_references(self@, i, p as int)),
            decreases self.nodes.len() - p,
        {
            assert(self@.nodes[p as int] == self.nodes@[p as int]@);
            total = count_in(
                &self.nodes[p].children,
                i,
                total,
                Ghost(from_scenes + child_references(self@, i, p as int)),
            );
            p += 1;
        }
        total
    }

    /// Counts the references to texture `i`.
    pub fn texture_references(&self, i: usize) -> (r: usize)
        ensures
            r == reported(texture_references(self@, i)),
    {
        let mut total: usize = 0;
        let mut m: usize = 0;
        while m < self.materials.len()
            invariant
                m <= self.materials.len(),
                total == reported(texture_references_among(self@, i, m as int)),
            decreases self.materials.len() - m,
        {
            assert(self@.materials[m as int] == self.materials@[m as int]@);
            let x = &self.materials[m];
            let ghost base = texture_references_among(self@, i, m as int);
            let ghost mut seen: nat = 0;
            let mut sum = total;
            match &x.pbr {
                Some(p) => {
                    sum = count_slot(&p.base_color, i, sum, Ghost(base));
                    sum = count_slot(
                        &p.metallic_roughness,
                        i,
                        sum,
                        Ghost(base + slot_references(x@.pbr->Some_0.base_color, i)),
                    );
                    proof {
                        seen = slot_references(x@.pbr->Some_0.base_color, i) + slot_references(
                            x@.pbr->Some_0.metallic_roughness,
                            i,
                        );
                    }
                },
                None => {},
            }
            sum = count_slot(&x.normal, i, sum, Ghost(base + seen));
            sum = count_slot(&x.occlusion, i, sum, Ghost(base + seen + slot_references(x@.normal, i)));
            sum = count_slot(
                &x.emissive,
                i,
                sum,
                Ghost(base + seen + slot_references(x@.normal, i) + slot_references(x@.occlusion, i)),
            );
            total = sum;
            m += 1;
        }
        total
    }

    /// Counts the references to mesh `i`.
    pub fn mesh_references(&self, i: usize) -> (r: usize)
        ensures
            r == reported(mesh_references(self@, i)),
    {
        let mut total: usize = 0;
        let mut p: usize = 0;
        while p < self.nodes.len()
            invariant
                p <= self.nodes.len(),
                total == reported(mesh_references_among(self@, i, p as int)),
            decreases self.nodes.len() - p,
        {
            assert(self@.nodes[p as int] == self.nodes@[p as int]@);
            let hit = match self.nodes[p].mesh {
                Some(m) => m == i,
                None => false,
            };
            if hit && total < usize::MAX {
                total += 1;
            }
            p += 1;
        }
        total
    }
}

/// The first of the first `n` nodes that has node `i` as a child.
pub open spec fn parent_among(root: RootView, i: usize, n: int) -> Option<usize>
    decreases n,
{
    if n <= 0 || n > root.nodes.len() {
        None
    } else {
        match parent_among(root, i, n - 1) {
            Some(p) => Some(p),
            None => if root.nodes[n - 1].children.contains(i) {
                Some((n - 1) as usize)
            } else {
                None
            },
        }
    }
}

/// The parent of node `i`: the first node that has it as a child, if any
/// has.
pub open spec fn parent(root: RootView, i: usize) -> Option<usize> {
    parent_among(root, i, root.nodes.len() as int)
}

/// What is the parent among the first nodes stays the parent among more.
proof fn lemma_parent_grows(root: RootView, i: usize, n: int, m: int)
    requires
        0 <= n <= m <= root.nodes.len(),
        parent_among(root, i, n) is Some,
    ensures
        parent_among(root, i, m) == parent_among(root, i, n),
    decreases m - n,
{
    if n < m {
        lemma_parent_grows(root, i, n, m - 1);
    }
}

impl Root {
    /// Finds the parent of node `i`.
    pub fn parent(&self, i: usize) -> (r: Option<usize>)
        ensures
            r == parent(self@, i),
    {
        let mut p: usize = 0;
        while p < self.nodes.len()
            invariant
                p <= self.nodes.len(),
                parent_among(self@, i, p as int) is None,
            decreases self.nodes.len() - p,
        {
            assert(self@.nodes[p as int] == self.nodes@[p as int]@);
            let children = &self.nodes[p].children;
            let mut k: usize = 0;
            while k < children.len()
                invariant
                    k <= children.len(),
                    p < self.nodes.len(),
                    children@ == self@.nodes[p as int].children,
                    parent_among(self@, i, p as int) is None,
                    forall|j: int| 0 <= j < k ==> children@[j] != i,
                decreases children.len() - k,
            {
                if children[k] == i {
                    proof {
                        assert(children@.contains(i));
                        lemma_parent_grows(self@, i, p + 1, self@.nodes.len() as int);
                    }
                    return Some(p);
                }
                k += 1;
            }
            assert(!children@.contains(i));
            p += 1;
        }
        None
    }
}

/// Marks for `n` entries: every entry but entry `i`.
pub open spec fn all_but(n: nat, i: int) -> Seq<bool> {
    Seq::new(n, |k: int| k != i)
}

/// The marks that keep everything but node `i`.
pub open spec fn without_node(root: RootView, i: int) -> Marks {
    Marks {
        nodes: all_but(root.nodes.len(), i),
        meshes: all_but(root.meshes.len(), -1),
        materials: all_but(root.materials.len(), -1),
        textures: all_but(root.textures.len(), -1),
        accessors: all_but(root.accessors.len(), -1),
    }
}

/// The marks that keep everything but mesh `i`.
pub open spec fn without_mesh(root: RootView, i: int) -> Marks {
    Marks {
        nodes: all_but(root.nodes.len(), -1),
        meshes: all_but(root.meshes.len(), i),
        materials: all_but(root.materials.len(), -1),
        textures: all_but(root.textures.len(), -1),
        accessors: all_but(root.accessors.len(), -1),
    }
}

/// What removing node `i` comes to: the description without it, every
/// later node one place earlier; or a dangling reference, where there is
/// no such node or something refers to it.
pub open spec fn node_removed(root: RootView, i: usize) -> Result<RootView, ErrorView> {
    if i >= root.nodes.len() || node_referenced(root, i) {
        Err(ErrorView::DanglingReference)
    } else {
        Ok(apply_plan(root, marks_plan(without_node(root, i as int))))
    }
}

/// What removing mesh `i` comes to: the description without it, every
/// later mesh one place earlier; or a dangling reference, where there is
/// no such mesh or a node refers to it.
pub open spec fn mesh_removed(root: RootView, i: usize) -> Result<RootView, ErrorView> {
    if i >= root.meshes.len() || mesh_referenced(root, i) {
        Err(ErrorView::DanglingReference)
    } else {
        Ok(apply_plan(root, marks_plan(without_mesh(root, i as int))))
    }
}

/// Makes marks for `n` entries: every entry but entry `i`.
fn mark_all_but(n: usize, i: Option<usize>) -> (r: Vec<bool>)
    ensures
        r@ == all_but(
            n as nat,
            match i {
                Some(k) => k as int,
                None => -1,
            },
        ),
{
    let mut marks: Vec<bool> = Vec::new();
    let mut k: usize = 0;
    while k < n
        invariant
            k <= n,
            marks.len() == k,
            forall|j: int| 0 <= j < k ==> #[trigger] marks@[j] == (i != Some(j as usize)),
        decreases n - k,
    {
        let keep = match i {
            Some(x) => x != k,
            None => true,
        };
        marks.push(keep);
        k += 1;
    }
    assert(marks@ =~= all_but(
        n as nat,
        match i {
            Some(k) => k as int,
            None => -1,
        },
    ));
    marks
}

/// Removes node `i`. It fails with `DanglingReference`, and changes
/// nothing, where there is no such node or something refers to it.
pub fn remove_node(doc: &mut Document, i: usize) -> (r: Result<(), Error>)
    requires
        old(doc)@.wf(),
    ensures
        final(doc)@.wf(),
        final(doc)@.data == old(doc)@.data,
        match r {
            Ok(()) => node_removed(old(doc)@.root, i) == Ok::<RootView, ErrorView>(final(doc)@.root),
            Err(e) => node_removed(old(doc)@.root, i) == Err::<RootView, ErrorView>(e@) && final(doc)@
                == old(doc)@,
        },
{
    if i >= doc.root.nodes.len() {
        return Err(Error::DanglingReference);
    }
    let marks = doc.root.mark_nodes();
    if marks[i] {
        return Err(Error::DanglingReference);
    }
    let plan = Plan {
        nodes: plan_of(mark_all_but(doc.root.nodes.len(), Some(i))),
        meshes: plan_of(mark_all_but(doc.root.meshes.len(), None)),
        materials: plan_of(mark_all_but(doc.root.materials.len(), None)),
        textures: plan_of(mark_all_but(doc.root.textures.len(), None)),
        accessors: plan_of(mark_all_but(doc.root.accessors.len(), None)),
    };
    proof {
        let m = without_node(doc@.root, i as int);
        assert(plan@ == marks_plan(m));
        lemma_marks_cover(doc@.root, m);
        lemma_apply_valid(doc@.root, plan@);
        lemma_apply_ok(doc@.root, plan@);
    }
    let next = apply(&doc.root, &plan);
    doc.root = next;
    Ok(())
}

/// Removes mesh `i`. It fails with `DanglingReference`, and changes
/// nothing, where there is no such mesh or a node refers to it.
pub fn remove_mesh(doc: &mut Document, i: usize) -> (r: Result<(), Error>)
    requires
        old(doc)@.wf(),
    ensures
        final(doc)@.wf(),
        final(doc)@.data == old(doc)@.data,
        match r {
            Ok(()) => mesh_removed(old(doc)@.root, i) == Ok::<RootView, ErrorView>(final(doc)@.root),
            Err(e) => mesh_removed(old(doc)@.root, i) == Err::<RootView, ErrorView>(e@) && final(doc)@
                == old(doc)@,
        },
{
    if i >= doc.root.meshes.len() {
        return Err(Error::DanglingReference);
    }
    let marks = doc.root.mark_meshes();
    if marks[i] {
        return Err(Error::DanglingReference);
    }
    let plan = Plan {
        nodes: plan_of(mark_all_but(doc.root.nodes.len(), None)),
        meshes: plan_of(mark_all_but(doc.root.meshes.len(), Some(i))),
        materials: plan_of(mark_all_but(doc.root.materials.len(), None)),
        textures: plan_of(mark_all_but(doc.root.textures.len(), None)),
        accessors: plan_of(mark_all_but(doc.root.accessors.len(), None)),
    };
    proof {
        let m = without_mesh(doc@.root, i as int);
        assert(plan@ == marks_plan(m));
        lemma_marks_cover(doc@.root, m);
        lemma_apply_valid(doc@.root, plan@);
        lemma_apply_ok(doc@.root, plan@);
    }
    let next = apply(&doc.root, &plan);
    doc.root = next;
    Ok(())
}

/// What adding a node comes to: the description with the node behind the
/// nodes it had; or a dangling reference, where the node refers to a node
/// or a mesh that is not there; or a malformed asset, where what is
/// carried along with the node cannot be written.
pub open spec fn node_added(root: RootView, node: NodeView) -> Result<RootView, ErrorView> {
    if !root.node_valid(node) {
        Err(ErrorView::DanglingReference)
    } else if !node.ok() || root.nodes.len() >= usize::MAX {
        Err(ErrorView::MalformedAsset(Malformed::BadSchema))
    } else {
        Ok(RootView { nodes: root.nodes.push(node), ..root })
    }
}

/// What adding a mesh comes to: the description with the mesh behind the
/// meshes it had; or a dangling reference, where a primitive of the mesh
/// refers to an accessor or a material that is not there; or a malformed
/// asset, where what is carried along with the mesh cannot be written.
pub open spec fn mesh_added(root: RootView, mesh: MeshView) -> Result<RootView, ErrorView> {
    if !root.mesh_valid(mesh) {
        Err(ErrorView::DanglingReference)
    } else if !mesh.ok() || root.meshes.len() >= usize::MAX {
        Err(ErrorView::MalformedAsset(Malformed::BadSchema))
    } else {
        Ok(RootView { meshes: root.meshes.push(mesh), ..root })
    }
}

/// A description with one more valid node or mesh is as well formed as it
/// was.
proof fn lemma_added(doc: DocumentView, root: RootView)
    requires
        doc.wf(),
        (exists|node: NodeView| node_added(doc.root, node) == Ok::<RootView, ErrorView>(root)) || (
        exists|mesh: MeshView| mesh_added(doc.root, mesh) == Ok::<RootView, ErrorView>(root)),
    ensures
        (DocumentView { root, data: doc.data }).wf(),
{
    reveal(RootView::ok);
    reveal(RootView::valid);
    let r = doc.root;
    if root.nodes.len() > r.nodes.len() {
        assert(crate::acyclic::children_exist(r.nodes)) by {
            assert forall|p: int| 0 <= p < r.nodes.len() implies crate::document::all_below(
                (#[trigger] r.nodes[p]).children,
                r.nodes.len(),
            ) by {
                assert(r.node_valid(r.nodes[p]));
            }
        }
        let node = root.nodes[r.nodes.len() as int];
        assert(root.nodes =~= r.nodes.push(node));
        crate::acyclic::lemma_acyclic_push(r.nodes, node);
    }
    assert forall|i: int| 0 <= i < root.scenes.len() implies root.scene_valid(#[trigger] root.scenes[i]) by {
        assert(r.scene_valid(r.scenes[i]));
    }
    assert forall|i: int| 0 <= i < root.nodes.len() implies root.node_valid(#[trigger] root.nodes[i]) by {
        if i < r.nodes.len() {
            assert(r.node_valid(r.nodes[i]));
        }
    }
    assert forall|i: int| 0 <= i < root.nodes.len() implies (#[trigger] root.nodes[i]).ok() by {
        if i < r.nodes.len() {
            assert(r.nodes[i].ok());
        }
    }
    assert forall|i: int| 0 <= i < root.meshes.len() implies root.mesh_valid(#[trigger] root.meshes[i]) by {
        if i < r.meshes.len() {
            assert(r.mesh_valid(r.meshes[i]));
            assert forall|q: int| 0 <= q < root.meshes[i].primitives.len() implies root.primitive_valid(
                #[trigger] root.meshes[i].primitives[q],
            ) by {
                assert(r.primitive_valid(r.meshes[i].primitives[q]));
            }
        }
    }
    assert forall|i: int| 0 <= i < root.meshes.len() implies (#[trigger] root.meshes[i]).ok() by {
        if i < r.meshes.len() {
            assert(r.meshes[i].ok());
        }
    }
    assert forall|i: int| 0 <= i < root.materials.len() implies root.material_valid(
        #[trigger] root.materials[i],
    ) by {
        assert(r.material_valid(r.materials[i]));
    }
    assert forall|i: int| 0 <= i < root.textures.len() implies root.texture_valid(
        #[trigger] root.textures[i],
    ) by {
        assert(r.texture_valid(r.textures[i]));
    }
    assert forall|i: int| 0 <= i < root.images.len() implies root.image_valid(#[trigger] root.images[i]) by {
        assert(r.image_valid(r.images[i]));
    }
    assert forall|i: int| 0 <= i < root.accessors.len() implies root.accessor_valid(
        #[trigger] root.accessors[i],
    ) by {
        assert(r.accessor_valid(r.accessors[i]));
    }
    assert forall|i: int| 0 <= i < root.views.len() implies root.view_valid(#[trigger] root.views[i]) by {
        assert(r.view_valid(r.views[i]));
    }
    assert forall|i: int| 0 <= i < root.buffers.len() implies root.buffer_valid(
        #[trigger] root.buffers[i],
    ) by {
        assert(r.buffer_valid(r.buffers[i]));
    }
}

/// Adds a node behind the nodes of the document and gives its index. On
/// failure the document is as it was.
pub fn add_node(doc: &mut Document, node: Node) -> (r: Result<usize, Error>)
    requires
        old(doc)@.wf(),
    ensures
        final(doc)@.wf(),
        final(doc)@.data == old(doc)@.data,
        match r {
            Ok(i) => node_added(old(doc)@.root, node@) == Ok::<RootView, ErrorView>(final(doc)@.root) && i
                == old(doc)@.root.nodes.len(),
            Err(e) => node_added(old(doc)@.root, node@) == Err::<RootView, ErrorView>(e@) && final(doc)@
                == old(doc)@,
        },
{
    if !doc.root.check_node(&node) {
        return Err(Error::DanglingReference);
    }
    if !node.check_ok() || doc.root.nodes.len() >= usize::MAX {
        return Err(Error::MalformedAsset(Malformed::BadSchema));
    }
    let i = doc.root.nodes.len();
    proof {
        let root = RootView { nodes: doc@.root.nodes.push(node@), ..doc@.root };
        assert(node_added(doc@.root, node@) == Ok::<RootView, ErrorView>(root));
        lemma_added(doc@, root);
    }
    doc.root.nodes.push(node);
    assert(doc@.root.nodes =~= old(doc)@.root.nodes.push(node@));
    Ok(i)
}

/// Adds a mesh behind the meshes of the document and gives its index. On
/// failure the document is as it was.
pub fn add_mesh(doc: &mut Document, mesh: Mesh) -> (r: Result<usize, Error>)
    requires
        old(doc)@.wf(),
    ensures
        final(doc)@.wf(),
        final(doc)@.data == old(doc)@.data,
        match r {
            Ok(i) => mesh_added(old(doc)@.root, mesh@) == Ok::<RootView, ErrorView>(final(doc)@.root) && i
                == old(doc)@.root.meshes.len(),
            Err(e) => mesh_added(old(doc)@.root, mesh@) == Err::<RootView, ErrorView>(e@) && final(doc)@
                == old(doc)@,
        },
{
    if !doc.root.check_mesh(&mesh) {
        return Err(Error::DanglingReference);
    }
    if !mesh.check_ok() || doc.root.meshes.len() >= usize::MAX {
        return Err(Error::MalformedAsset(Malformed::BadSchema));
    }
    let i = doc.root.meshes.len();
    proof {
        let root = RootView { meshes: doc@.root.meshes.push(mesh@), ..doc@.root };
        assert(mesh_added(doc@.root, mesh@) == Ok::<RootView, ErrorView>(root));
        lemma_added(doc@, root);
    }
    doc.root.meshes.push(mesh);
    assert(doc@.root.meshes =~= old(doc)@.root.meshes.push(mesh@));
    Ok(i)
}

/// Whether a payload may be attached under the name of an extension: the
/// extension must be registered, its capability must accept the payload,
/// and the payload must be well formed within the depth that is left to
/// it.
pub open spec fn payload_admitted(registry: Seq<EntryView>, name: Seq<u8>, payload: JsonView) -> Result<
    (),
    ErrorView,
> {
    match capability_of(registry, name) {
        None => Err(ErrorView::UnsupportedExtension(name)),
        Some(c) => if accepts(c, payload) && well_formed(payload, PROPS_DEPTH as nat) {
            Ok(())
        } else {
            Err(ErrorView::MalformedAsset(Malformed::BadSchema))
        },
    }
}

/// Decides whether a payload may be attached under the name of an
/// extension.
fn admit_payload(registry: &Registry, name: &Vec<u8>, payload: &Json) -> (r: Result<(), Error>)
    ensures
        match r {
            Ok(()) => payload_admitted(registry@, name@, payload@) == Ok::<(), ErrorView>(()),
            Err(e) => payload_admitted(registry@, name@, payload@) == Err::<(), ErrorView>(e@),
        },
{
    match registry.lookup(name) {
        None => Err(Error::UnsupportedExtension(crate::bytes::clone_bytes(name))),
        Some(c) => {
            if c.validate(payload) && check(payload, PROPS_DEPTH) {
                Ok(())
            } else {
                Err(Error::MalformedAsset(Malformed::BadSchema))
            }
        },
    }
}

/// What attaching a payload at the root comes to: the description with
/// the payload under the name of its extension, in place of what was
/// there under that name, and the extension among the extensions in use.
pub open spec fn extension_attached(
    root: RootView,
    registry: Seq<EntryView>,
    name: Seq<u8>,
    payload: JsonView,
) -> Result<RootView, ErrorView> {
    match payload_admitted(registry, name, payload) {
        Err(e) => Err(e),
        Ok(()) => Ok(
            RootView {
                extensions: with_payload(root.extensions, name, payload),
                extensions_used: with_name(root.extensions_used, name),
                ..root
            },
        ),
    }
}

/// Attaching a payload keeps the document well formed.
proof fn lemma_extension_attached(doc: DocumentView, name: Seq<u8>, payload: JsonView)
    requires
        doc.wf(),
        well_formed(payload, PROPS_DEPTH as nat),
    ensures
        (DocumentView {
            root: RootView {
                extensions: with_payload(doc.root.extensions, name, payload),
                extensions_used: with_name(doc.root.extensions_used, name),
                ..doc.root
            },
            data: doc.data,
        }).wf(),
{
    reveal(RootView::ok);
    reveal(RootView::valid);
    crate::metadata::lemma_attached_well_formed(doc.root.extensions, name, payload, PROPS_DEPTH as nat);
}

/// Attaches a payload at the root of the document, under the name of its
/// extension. On failure the document is as it was.
pub fn attach_extension(doc: &mut Document, registry: &Registry, name: &Vec<u8>, payload: &Json) -> (r: Result<
    (),
    Error,
>)
    requires
        old(doc)@.wf(),
    ensures
        final(doc)@.wf(),
        final(doc)@.data == old(doc)@.data,
        match r {
            Ok(()) => extension_attached(old(doc)@.root, registry@, name@, payload@) == Ok::<
                RootView,
                ErrorView,
            >(final(doc)@.root),
            Err(e) => extension_attached(old(doc)@.root, registry@, name@, payload@) == Err::<
                RootView,
                ErrorView,
            >(e@) && final(doc)@ == old(doc)@,
        },
{
    match admit_payload(registry, name, payload) {
        Ok(()) => {},
        Err(e) => {
            return Err(e);
        },
    }
    proof {
        lemma_extension_attached(doc@, name@, payload@);
    }
    let extensions = crate::metadata::attach(&doc.root.extensions, name.as_slice(), duplicate(payload));
    let used = crate::metadata::add_name(&doc.root.extensions_used, name.as_slice());
    doc.root.extensions = extensions;
    doc.root.extensions_used = used;
    Ok(())
}

/// The node with the payload attached under the name of its extension.
pub open spec fn node_with_payload(x: crate::entities::NodeView, name: Seq<u8>, payload: JsonView) -> crate::entities::NodeView {
    crate::entities::NodeView { extensions: with_payload(x.extensions, name, payload), ..x }
}

/// What attaching a payload to node `i` comes to: the description with the
/// payload under the name of its extension among the payloads of that
/// node, and the extension among the extensions in use; or a dangling
/// reference, where there is no such node.
pub open spec fn node_extension_attached(
    root: RootView,
    registry: Seq<EntryView>,
    i: usize,
    name: Seq<u8>,
    payload: JsonView,
) -> Result<RootView, ErrorView> {
    if i >= root.nodes.len() {
        Err(ErrorView::DanglingReference)
    } else {
        match payload_admitted(registry, name, payload) {
            Err(e) => Err(e),
            Ok(()) => Ok(
                RootView {
                    nodes: root.nodes.update(i as int, node_with_payload(root.nodes[i as int], name, payload)),
                    extensions_used: with_name(root.extensions_used, name),
                    ..root
                },
            ),
        }
    }
}

/// Attaching a payload to a node keeps the document well formed.
proof fn lemma_node_extension_attached(doc: DocumentView, i: int, name: Seq<u8>, payload: JsonView)
    requires
        doc.wf(),
        0 <= i < doc.root.nodes.len(),
        well_formed(payload, PROPS_DEPTH as nat),
    ensures
        (DocumentView {
            root: RootView {
                nodes: doc.root.nodes.update(i, node_with_payload(doc.root.nodes[i], name, payload)),
                extensions_used: with_name(doc.root.extensions_used, name),
                ..doc.root
            },
            data: doc.data,
        }).wf(),
{
    reveal(RootView::ok);
    reveal(RootView::valid);
    let r = doc.root;
    let after = RootView {
        nodes: r.nodes.update(i, node_with_payload(r.nodes[i], name, payload)),
        extensions_used: with_name(r.extensions_used, name),
        ..r
    };
    assert(r.nodes[i].ok());
    assert(r.node_valid(r.nodes[i]));
    crate::acyclic::lemma_acyclic_same(r.nodes, after.nodes);
    crate::metadata::lemma_attached_well_formed(r.nodes[i].extensions, name, payload, PROPS_DEPTH as nat);
    assert forall|k: int| 0 <= k < after.nodes.len() implies (#[trigger] after.nodes[k]).ok() by {
        if k != i {
            assert(r.nodes[k].ok());
        }
    }
    assert forall|k: int| 0 <= k < after.nodes.len() implies after.node_valid(#[trigger] after.nodes[k]) by {
        if k != i {
            assert(r.node_valid(r.nodes[k]));
        }
    }
}

/// Attaches a payload to node `i` of the document, under the name of its
/// extension. On failure the document is as it was.
pub fn attach_node_extension(
    doc: &mut Document,
    registry: &Registry,
    i: usize,
    name: &Vec<u8>,
    payload: &Json,
) -> (r: Result<(), Error>)
    requires
        old(doc)@.wf(),
    ensures
        final(doc)@.wf(),
        final(doc)@.data == old(doc)@.data,
        match r {
            Ok(()) => node_extension_attached(old(doc)@.root, registry@, i, name@, payload@) == Ok::<
                RootView,
                ErrorView,
            >(final(doc)@.root),
            Err(e) => node_extension_attached(old(doc)@.root, registry@, i, name@, payload@) == Err::<
                RootView,
                ErrorView,
            >(e@) && final(doc)@ == old(doc)@,
        },
{
    if i >= doc.root.nodes.len() {
        return Err(Error::DanglingReference);
    }
    match admit_payload(registry, name, payload) {
        Ok(()) => {},
        Err(e) => {
            return Err(e);
        },
    }
    proof {
        lemma_node_extension_attached(doc@, i as int, name@, payload@);
    }
    assert(doc@.root.nodes[i as int] == doc.root.nodes@[i as int]@);
    let mut x = doc.root.nodes[i].duplicate();
    let extensions = crate::metadata::attach(&x.extensions, name.as_slice(), duplicate(payload));
    x.extensions = extensions;
    let used = crate::metadata::add_name(&doc.root.extensions_used, name.as_slice());
    let ghost want = node_with_payload(doc@.root.nodes[i as int], name@, payload@);
    assert(x@ == want);
    doc.root.nodes.set(i, x);
    doc.root.extensions_used = used;
    assert(doc@.root.nodes =~= old(doc)@.root.nodes.update(i as int, want));
    Ok(())
}

/// The material with the payload attached under the name of its extension.
pub open spec fn material_with_payload(x: crate::entities::MaterialView, name: Seq<u8>, payload: JsonView) -> crate::entities::MaterialView {
    crate::entities::MaterialView { extensions: with_payload(x.extensions, name, payload), ..x }
}

/// What attaching a payload to material `i` comes to: the description with the
/// payload under the name of its extension among the payloads of that
/// material, and the extension among the extensions in use; or a dangling
/// reference, where there is no such material.
pub open spec fn material_extension_attached(
    root: RootView,
    registry: Seq<EntryView>,
    i: usize,
    name: Seq<u8>,
    payload: JsonView,
) -> Result<RootView, ErrorView> {
    if i >= root.materials.len() {
        Err(ErrorView::DanglingReference)
    } else {
        match payload_admitted(registry, name, payload) {
            Err(e) => Err(e),
            Ok(()) => Ok(
                RootView {
                    materials: root.materials.update(i as int, material_with_payload(root.materials[i as int], name, payload)),
                    extensions_used: with_name(root.extensions_used, name),
                    ..root
                },
            ),
        }
    }
}

/// Attaching a payload to a material keeps the document well formed.
proof fn lemma_material_extension_attached(doc: DocumentView, i: int, name: Seq<u8>, payload: JsonView)
    requires
        doc.wf(),
        0 <= i < doc.root.materials.len(),
        well_formed(payload, PROPS_DEPTH as nat),
    ensures
        (DocumentView {
            root: RootView {
                materials: doc.root.materials.update(i, material_with_payload(doc.root.materials[i], name, payload)),
                extensions_used: with_name(doc.root.extensions_used, name),
                ..doc.root
            },
            data: doc.data,
        }).wf(),
{
    reveal(RootView::ok);
    reveal(RootView::valid);
    reveal(MaterialView::ok);
    let r = doc.root;
    let after = RootView {
        materials: r.materials.update(i, material_with_payload(r.materials[i], name, payload)),
        extensions_used: with_name(r.extensions_used, name),
        ..r
    };
    assert(r.materials[i].ok());
    assert(r.material_valid(r.materials[i]));
    crate::metadata::lemma_attached_well_formed(r.materials[i].extensions, name, payload, PROPS_DEPTH as nat);
    assert forall|k: int| 0 <= k < after.materials.len() implies (#[trigger] after.materials[k]).ok() by {
        if k != i {
            assert(r.materials[k].ok());
        }
    }
    assert forall|k: int| 0 <= k < after.materials.len() implies after.material_valid(#[trigger] after.materials[k]) by {
        if k != i {
            assert(r.material_valid(r.materials[k]));
        }
    }
}

/// Attaches a payload to material `i` of the document, under the name of its
/// extension. On failure the document is as it was.
pub fn attach_material_extension(
    doc: &mut Document,
    registry: &Registry,
    i: usize,
    name: &Vec<u8>,
    payload: &Json,
) -> (r: Result<(), Error>)
    requires
        old(doc)@.wf(),
    ensures
        final(doc)@.wf(),
        final(doc)@.data == old(doc)@.data,
        match r {
            Ok(()) => material_extension_attached(old(doc)@.root, registry@, i, name@, payload@) == Ok::<
                RootView,
                ErrorView,
            >(final(doc)@.root),
            Err(e) => material_extension_attached(old(doc)@.root, registry@, i, name@, payload@) == Err::<
                RootView,
                ErrorView,
            >(e@) && final(doc)@ == old(doc)@,
        },
{
    if i >= doc.root.materials.len() {
        return Err(Error::DanglingReference);
    }
    match admit_payload(registry, name, payload) {
        Ok(()) => {},
        Err(e) => {
            return Err(e);
        },
    }
    proof {
        lemma_material_extension_attached(doc@, i as int, name@, payload@);
    }
    assert(doc@.root.materials[i as int] == doc.root.materials@[i as int]@);
    let mut x = doc.root.materials[i].duplicate();
    let extensions = crate::metadata::attach(&x.extensions, name.as_slice(), duplicate(payload));
    x.extensions = extensions;
    let used = crate::metadata::add_name(&doc.root.extensions_used, name.as_slice());
    let ghost want = material_with_payload(doc@.root.materials[i as int], name@, payload@);
    assert(x@ == want);
    doc.root.materials.set(i, x);
    doc.root.extensions_used = used;
    assert(doc@.root.materials =~= old(doc)@.root.materials.update(i as int, want));
    Ok(())
}

/// The texture with the payload attached under the name of its extension.
pub open spec fn texture_with_payload(x: crate::entities::TextureView, name: Seq<u8>, payload: JsonView) -> crate::entities::TextureView {
    crate::entities::TextureView { extensions: with_payload(x.extensions, name, payload), ..x }
}

/// What attaching a payload to texture `i` comes to: the description with the
/// payload under the name of its extension among the payloads of that
/// texture, and the extension among the extensions in use; or a dangling
/// reference, where there is no such texture.
pub open spec fn texture_extension_attached(
    root: RootView,
    registry: Seq<EntryView>,
    i: usize,
    name: Seq<u8>,
    payload: JsonView,
) -> Result<RootView, ErrorView> {
    if i >= root.textures.len() {
        Err(ErrorView::DanglingReference)
    } else {
        match payload_admitted(registry, name, payload) {
            Err(e) => Err(e),
            Ok(()) => Ok(
                RootView {
                    textures: root.textures.update(i as int, texture_with_payload(root.textures[i as int], name, payload)),
                    extensions_used: with_name(root.extensions_used, name),
                    ..root
                },
            ),
        }
    }
}

/// Attaching a payload to a texture keeps the document well formed.
proof fn lemma_texture_extension_attached(doc: DocumentView, i: int, name: Seq<u8>, payload: JsonView)
    requires
        doc.wf(),
        0 <= i < doc.root.textures.len(),
        well_formed(payload, PROPS_DEPTH as nat),
    ensures
        (DocumentView {
            root: RootView {
                textures: doc.root.textures.update(i, texture_with_payload(doc.root.textures[i], name, payload)),
                extensions_used: with_name(doc.root.extensions_used, name),
                ..doc.root
            },
            data: doc.data,
        }).wf(),
{
    reveal(RootView::ok);
    reveal(RootView::valid);
    let r = doc.root;
    let after = RootView {
        textures: r.textures.update(i, texture_with_payload(r.textures[i], name, payload)),
        extensions_used: with_name(r.extensions_used, name),
        ..r
    };
    assert(r.textures[i].ok());
    assert(r.texture_valid(r.textures[i]));
    crate::metadata::lemma_attached_well_formed(r.textures[i].extensions, name, payload, PROPS_DEPTH as nat);
    assert forall|k: int| 0 <= k < after.textures.len() implies (#[trigger] after.textures[k]).ok() by {
        if k != i {
            assert(r.textures[k].ok());
        }
    }
    assert forall|k: int| 0 <= k < after.textures.len() implies after.texture_valid(#[trigger] after.textures[k]) by {
        if k != i {
            assert(r.texture_valid(r.textures[k]));
        }
    }
}

/// Attaches a payload to texture `i` of the document, under the name of its
/// extension. On failure the document is as it was.
pub fn attach_texture_extension(
    doc: &mut Document,
    registry: &Registry,
    i: usize,
    name: &Vec<u8>,
    payload: &Json,
) -> (r: Result<(), Error>)
    requires
        old(doc)@.wf(),
    ensures
        final(doc)@.wf(),
        final(doc)@.data == old(doc)@.data,
        match r {
            Ok(()) => texture_extension_attached(old(doc)@.root, registry@, i, name@, payload@) == Ok::<
                RootView,
                ErrorView,
            >(final(doc)@.root),
            Err(e) => texture_extension_attached(old(doc)@.root, registry@, i, name@, payload@) == Err::<
                RootView,
                ErrorView,
            >(e@) && final(doc)@ == old(doc)@,
        },
{
    if i >= doc.root.textures.len() {
        return Err(Error::DanglingReference);
    }
    match admit_payload(registry, name, payload) {
        Ok(()) => {},
        Err(e) => {
            return Err(e);
        },
    }
    proof {
        lemma_texture_extension_attached(doc@, i as int, name@, payload@);
    }
    assert(doc@.root.textures[i as int] == doc.root.textures@[i as int]@);
    let mut x = doc.root.textures[i].duplicate();
    let extensions = crate::metadata::attach(&x.extensions, name.as_slice(), duplicate(payload));
    x.extensions = extensions;
    let used = crate::metadata::add_name(&doc.root.extensions_used, name.as_slice());
    let ghost want = texture_with_payload(doc@.root.textures[i as int], name@, payload@);
    assert(x@ == want);
    doc.root.textures.set(i, x);
    doc.root.extensions_used = used;
    assert(doc@.root.textures =~= old(doc)@.root.textures.update(i as int, want));
    Ok(())
}

} // verus!
