//! Which entities of a description are referred to.
use vstd::prelude::*;
use crate::document::{all_below, below, ref_below};
use crate::entities::{opt_view, views, Material, Mesh, Primitive, Root, RootView, TextureRef, TextureRefView};

verus! {

/// Whether scene `s` has node `i` as a root.
pub open spec fn scene_mentions(root: RootView, s: int, i: usize) -> bool {
    root.scenes[s].nodes.contains(i)
}

/// Whether node `p` has node `i` as a child.
pub open spec fn node_mentions_node(root: RootView, p: int, i: usize) -> bool {
    root.nodes[p].children.contains(i)
}

/// Whether one of the first `n` scenes has node `i` as a root.
pub open spec fn scenes_mention(root: RootView, n: int, i: usize) -> bool {
    exists|s: int| 0 <= s < n && scene_mentions(root, s, i)
}

/// Whether one of the first `n` nodes has node `i` as a child.
pub open spec fn nodes_mention_node(root: RootView, n: int, i: usize) -> bool {
    exists|p: int| 0 <= p < n && node_mentions_node(root, p, i)
}

/// Whether a scene or a node refers to node `i`.
pub open spec fn node_referenced(root: RootView, i: usize) -> bool {
    scenes_mention(root, root.scenes.len() as int, i) || nodes_mention_node(
        root,
        root.nodes.len() as int,
        i,
    )
}

/// Whether node `p` has mesh `i`.
pub open spec fn node_mentions_mesh(root: RootView, p: int, i: usize) -> bool {
    root.nodes[p].mesh == Some(i)
}

/// Whether one of the first `n` nodes has mesh `i`.
pub open spec fn nodes_mention_mesh(root: RootView, n: int, i: usize) -> bool {
    exists|p: int| 0 <= p < n && node_mentions_mesh(root, p, i)
}

/// Whether a node refers to mesh `i`.
pub open spec fn mesh_referenced(root: RootView, i: usize) -> bool {
    nodes_mention_mesh(root, root.nodes.len() as int, i)
}

/// Whether primitive `q` of mesh `m` has material `i`.
pub open spec fn primitive_mentions_material(root: RootView, m: int, q: int, i: usize) -> bool {
    root.meshes[m].primitives[q].material == Some(i)
}

/// Whether one of the first `n` primitives of mesh `m` has material `i`.
pub open spec fn primitives_mention_material(root: RootView, m: int, n: int, i: usize) -> bool {
    exists|q: int| 0 <= q < n && primitive_mentions_material(root, m, q, i)
}

/// Whether a primitive of mesh `m` has material `i`.
pub open spec fn mesh_mentions_material(root: RootView, m: int, i: usize) -> bool {
    primitives_mention_material(root, m, root.meshes[m].primitives.len() as int, i)
}

/// Whether one of the first `n` meshes has a primitive with material `i`.
pub open spec fn meshes_mention_material(root: RootView, n: int, i: usize) -> bool {
    exists|m: int| 0 <= m < n && mesh_mentions_material(root, m, i)
}

/// Whether a primitive refers to material `i`.
pub open spec fn material_referenced(root: RootView, i: usize) -> bool {
    meshes_mention_material(root, root.meshes.len() as int, i)
}

/// Whether attribute `a` of primitive `q` of mesh `m` has accessor `i`.
pub open spec fn attribute_mentions(root: RootView, m: int, q: int, a: int, i: usize) -> bool {
    root.meshes[m].primitives[q].attributes[a].accessor == i
}

/// Whether one of the first `n` attributes of the primitive has accessor
/// `i`.
pub open spec fn attributes_mention(root: RootView, m: int, q: int, n: int, i: usize) -> bool {
    exists|a: int| 0 <= a < n && attribute_mentions(root, m, q, a, i)
}

/// Whether primitive `q` of mesh `m` has accessor `i`, for its indices or
/// for an attribute.
pub open spec fn primitive_mentions_accessor(root: RootView, m: int, q: int, i: usize) -> bool {
    root.meshes[m].primitives[q].indices == Some(i) || attributes_mention(
        root,
        m,
        q,
        root.meshes[m].primitives[q].attributes.len() as int,
        i,
    )
}

/// Whether one of the first `n` primitives of mesh `m` has accessor `i`.
pub open spec fn primitives_mention_accessor(root: RootView, m: int, n: int, i: usize) -> bool {
    exists|q: int| 0 <= q < n && primitive_mentions_accessor(root, m, q, i)
}

/// Whether a primitive of mesh `m` has accessor `i`.
pub open spec fn mesh_mentions_accessor(root: RootView, m: int, i: usize) -> bool {
    primitives_mention_accessor(root, m, root.meshes[m].primitives.len() as int, i)
}

/// Whether one of the first `n` meshes has a primitive with accessor `i`.
pub open spec fn meshes_mention_accessor(root: RootView, n: int, i: usize) -> bool {
    exists|m: int| 0 <= m < n && mesh_mentions_accessor(root, m, i)
}

/// Whether a primitive refers to accessor `i`.
pub open spec fn accessor_referenced(root: RootView, i: usize) -> bool {
    meshes_mention_accessor(root, root.meshes.len() as int, i)
}

/// Whether the reference is one to texture `i`.
pub open spec fn ref_is(r: Option<TextureRefView>, i: usize) -> bool {
    match r {
        Some(t) => t.texture == i,
        None => false,
    }
}

/// Whether material `m` has texture `i` in one of its slots.
pub open spec fn material_mentions(root: RootView, m: int, i: usize) -> bool {
    let x = root.materials[m];
    ||| match x.pbr {
        Some(p) => ref_is(p.base_color, i) || ref_is(p.metallic_roughness, i),
        None => false,
    }
    ||| ref_is(x.normal, i)
    ||| ref_is(x.occlusion, i)
    ||| ref_is(x.emissive, i)
}

/// Whether one of the first `n` materials has texture `i` in a slot.
pub open spec fn materials_mention(root: RootView, n: int, i: usize) -> bool {
    exists|m: int| 0 <= m < n && material_mentions(root, m, i)
}

/// Whether a material refers to texture `i`.
pub open spec fn texture_referenced(root: RootView, i: usize) -> bool {
    materials_mention(root, root.materials.len() as int, i)
}

/// For every node, whether it is referred to.
pub open spec fn node_marks(root: RootView) -> Seq<bool> {
    Seq::new(root.nodes.len(), |i: int| node_referenced(root, i as usize))
}

/// For every mesh, whether it is referred to.
pub open spec fn mesh_marks(root: RootView) -> Seq<bool> {
    Seq::new(root.meshes.len(), |i: int| mesh_referenced(root, i as usize))
}

/// For every material, whether it is referred to.
pub open spec fn material_marks(root: RootView) -> Seq<bool> {
    Seq::new(root.materials.len(), |i: int| material_referenced(root, i as usize))
}

/// For every accessor, whether it is referred to.
pub open spec fn accessor_marks(root: RootView) -> Seq<bool> {
    Seq::new(root.accessors.len(), |i: int| accessor_referenced(root, i as usize))
}

/// For every texture, whether it is referred to.
pub open spec fn texture_marks(root: RootView) -> Seq<bool> {
    Seq::new(root.textures.len(), |i: int| texture_referenced(root, i as usize))
}

/// One more scene mentions what the ones before mention, and what it
/// mentions itself.
pub proof fn lemma_scenes_step(root: RootView, n: int, i: usize)
    requires
        0 <= n,
    ensures
        scenes_mention(root, n + 1, i) == (scenes_mention(root, n, i) || scene_mentions(root, n, i)),
{
    if scenes_mention(root, n, i) {
        let w = choose|w: int| 0 <= w < n && #[trigger] scene_mentions(root, w, i);
        assert(0 <= w < n + 1 && scene_mentions(root, w, i));
    }
    if scene_mentions(root, n, i) {
        assert(0 <= n < n + 1 && scene_mentions(root, n, i));
    }
    if scenes_mention(root, n + 1, i) {
        let w = choose|w: int| 0 <= w < n + 1 && #[trigger] scene_mentions(root, w, i);
        if w < n {
            assert(0 <= w < n && scene_mentions(root, w, i));
        }
    }
}

/// One more node mentions what the ones before mention, and what it
/// mentions itself.
pub proof fn lemma_nodes_node_step(root: RootView, n: int, i: usize)
    requires
        0 <= n,
    ensures
        nodes_mention_node(root, n + 1, i) == (nodes_mention_node(root, n, i) || node_mentions_node(root, n, i)),
{
    if nodes_mention_node(root, n, i) {
        let w = choose|w: int| 0 <= w < n && #[trigger] node_mentions_node(root, w, i);
        assert(0 <= w < n + 1 && node_mentions_node(root, w, i));
    }
    if node_mentions_node(root, n, i) {
        assert(0 <= n < n + 1 && node_mentions_node(root, n, i));
    }
    if nodes_mention_node(root, n + 1, i) {
        let w = choose|w: int| 0 <= w < n + 1 && #[trigger] node_mentions_node(root, w, i);
        if w < n {
            assert(0 <= w < n && node_mentions_node(root, w, i));
        }
    }
}

/// One more node mentions what the ones before mention, and what it
/// mentions itself.
pub proof fn lemma_nodes_mesh_step(root: RootView, n: int, i: usize)
    requires
        0 <= n,
    ensures
        nodes_mention_mesh(root, n + 1, i) == (nodes_mention_mesh(root, n, i) || node_mentions_mesh(root, n, i)),
{
    if nodes_mention_mesh(root, n, i) {
        let w = choose|w: int| 0 <= w < n && #[trigger] node_mentions_mesh(root, w, i);
        assert(0 <= w < n + 1 && node_mentions_mesh(root, w, i));
    }
    if node_mentions_mesh(root, n, i) {
        assert(0 <= n < n + 1 && node_mentions_mesh(root, n, i));
    }
    if nodes_mention_mesh(root, n + 1, i) {
        let w = choose|w: int| 0 <= w < n + 1 && #[trigger] node_mentions_mesh(root, w, i);
        if w < n {
            assert(0 <= w < n && node_mentions_mesh(root, w, i));
        }
    }
}

/// One more material mentions what the ones before mention, and what it
/// mentions itself.
pub proof fn lemma_materials_step(root: RootView, n: int, i: usize)
    requires
        0 <= n,
    ensures
        materials_mention(root, n + 1, i) == (materials_mention(root, n, i) || material_mentions(root, n, i)),
{
    if materials_mention(root, n, i) {
        let w = choose|w: int| 0 <= w < n && #[trigger] material_mentions(root, w, i);
        assert(0 <= w < n + 1 && material_mentions(root, w, i));
    }
    if material_mentions(root, n, i) {
        assert(0 <= n < n + 1 && material_mentions(root, n, i));
    }
    if materials_mention(root, n + 1, i) {
        let w = choose|w: int| 0 <= w < n + 1 && #[trigger] material_mentions(root, w, i);
        if w < n {
            assert(0 <= w < n && material_mentions(root, w, i));
        }
    }
}

/// One more mesh mentions what the ones before mention, and what it
/// mentions itself.
pub proof fn lemma_meshes_material_step(root: RootView, n: int, i: usize)
    requires
        0 <= n,
    ensures
        meshes_mention_material(root, n + 1, i) == (meshes_mention_material(root, n, i) || mesh_mentions_material(root, n, i)),
{
    if meshes_mention_material(root, n, i) {
        let w = choose|w: int| 0 <= w < n && #[trigger] mesh_mentions_material(root, w, i);
        assert(0 <= w < n + 1 && mesh_mentions_material(root, w, i));
    }
    if mesh_mentions_material(root, n, i) {
        assert(0 <= n < n + 1 && mesh_mentions_material(root, n, i));
    }
    if meshes_mention_material(root, n + 1, i) {
        let w = choose|w: int| 0 <= w < n + 1 && #[trigger] mesh_mentions_material(root, w, i);
        if w < n {
            assert(0 <= w < n && mesh_mentions_material(root, w, i));
        }
    }
}

/// One more mesh mentions what the ones before mention, and what it
/// mentions itself.
pub proof fn lemma_meshes_accessor_step(root: RootView, n: int, i: usize)
    requires
        0 <= n,
    ensures
        meshes_mention_accessor(root, n + 1, i) == (meshes_mention_accessor(root, n, i) || mesh_mentions_accessor(root, n, i)),
{
    if meshes_mention_accessor(root, n, i) {
        let w = choose|w: int| 0 <= w < n && #[trigger] mesh_mentions_accessor(root, w, i);
        assert(0 <= w < n + 1 && mesh_mentions_accessor(root, w, i));
    }
    if mesh_mentions_accessor(root, n, i) {
        assert(0 <= n < n + 1 && mesh_mentions_accessor(root, n, i));
    }
    if meshes_mention_accessor(root, n + 1, i) {
        let w = choose|w: int| 0 <= w < n + 1 && #[trigger] mesh_mentions_accessor(root, w, i);
        if w < n {
            assert(0 <= w < n && mesh_mentions_accessor(root, w, i));
        }
    }
}

/// One more primitive mentions what the ones before mention, and what it
/// mentions itself.
pub proof fn lemma_primitives_material_step(root: RootView, m: int, n: int, i: usize)
    requires
        0 <= n,
    ensures
        primitives_mention_material(root, m, n + 1, i) == (primitives_mention_material(root, m, n, i) || primitive_mentions_material(root, m, n, i)),
{
    if primitives_mention_material(root, m, n, i) {
        let w = choose|w: int| 0 <= w < n && #[trigger] primitive_mentions_material(root, m, w, i);
        assert(0 <= w < n + 1 && primitive_mentions_material(root, m, w, i));
    }
    if primitive_mentions_material(root, m, n, i) {
        assert(0 <= n < n + 1 && primitive_mentions_material(root, m, n, i));
    }
    if primitives_mention_material(root, m, n + 1, i) {
        let w = choose|w: int| 0 <= w < n + 1 && #[trigger] primitive_mentions_material(root, m, w, i);
        if w < n {
            assert(0 <= w < n && primitive_mentions_material(root, m, w, i));
        }
    }
}

/// One more primitive mentions what the ones before mention, and what it
/// mentions itself.
pub proof fn lemma_primitives_accessor_step(root: RootView, m: int, n: int, i: usize)
    requires
        0 <= n,
    ensures
        primitives_mention_accessor(root, m, n + 1, i) == (primitives_mention_accessor(root, m, n, i) || primitive_mentions_accessor(root, m, n, i)),
{
    if primitives_mention_accessor(root, m, n, i) {
        let w = choose|w: int| 0 <= w < n && #[trigger] primitive_mentions_accessor(root, m, w, i);
        assert(0 <= w < n + 1 && primitive_mentions_accessor(root, m, w, i));
    }
    if primitive_mentions_accessor(root, m, n, i) {
        assert(0 <= n < n + 1 && primitive_mentions_accessor(root, m, n, i));
    }
    if primitives_mention_accessor(root, m, n + 1, i) {
        let w = choose|w: int| 0 <= w < n + 1 && #[trigger] primitive_mentions_accessor(root, m, w, i);
        if w < n {
            assert(0 <= w < n && primitive_mentions_accessor(root, m, w, i));
        }
    }
}

/// One more attribute mentions what the ones before mention, and what
/// it mentions itself.
pub proof fn lemma_attributes_step(root: RootView, m: int, q: int, n: int, i: usize)
    requires
        0 <= n,
    ensures
        attributes_mention(root, m, q, n + 1, i) == (attributes_mention(root, m, q, n, i)
            || attribute_mentions(root, m, q, n, i)),
{
    if attributes_mention(root, m, q, n, i) {
        let w = choose|w: int| 0 <= w < n && #[trigger] attribute_mentions(root, m, q, w, i);
        assert(0 <= w < n + 1 && attribute_mentions(root, m, q, w, i));
    }
    if attribute_mentions(root, m, q, n, i) {
        assert(0 <= n < n + 1 && attribute_mentions(root, m, q, n, i));
    }
    if attributes_mention(root, m, q, n + 1, i) {
        let w = choose|w: int| 0 <= w < n + 1 && #[trigger] attribute_mentions(root, m, q, w, i);
        if w < n {
            assert(0 <= w < n && attribute_mentions(root, m, q, w, i));
        }
    }
}

/// A list of `n` marks, none set.
pub fn no_marks(n: usize) -> (r: Vec<bool>)
    ensures
        r.len() == n,
        forall|i: int| 0 <= i < n ==> !#[trigger] r@[i],
{
    let mut marks: Vec<bool> = Vec::new();
    let mut i: usize = 0;
    while i < n
        invariant
            i <= n,
            marks.len() == i,
            forall|j: int| 0 <= j < i ==> !#[trigger] marks@[j],
        decreases n - i,
    {
        marks.push(false);
        i += 1;
    }
    marks
}

/// Sets the mark of every index of the list.
pub fn mark_all(marks: &mut Vec<bool>, list: &Vec<usize>)
    requires
        all_below(list@, old(marks).len() as nat),
    ensures
        final(marks).len() == old(marks).len(),
        forall|i: int|
            0 <= i < old(marks).len() ==> #[trigger] final(marks)@[i] == (old(marks)@[i] || list@.contains(
                i as usize,
            )),
{
    let mut k: usize = 0;
    while k < list.len()
        invariant
            k <= list.len(),
            marks.len() == old(marks).len(),
            all_below(list@, marks.len() as nat),
            forall|i: int|
                0 <= i < marks.len() ==> #[trigger] marks@[i] == (old(marks)@[i] || list@.subrange(
                    0,
                    k as int,
                ).contains(i as usize)),
        decreases list.len() - k,
    {
        let ghost before = marks@;
        let target = list[k];
        marks.set(target, true);
        proof {
            let pre = list@.subrange(0, k as int);
            let now = list@.subrange(0, k + 1);
            assert(now =~= pre.push(target));
            assert forall|i: int| 0 <= i < marks.len() implies #[trigger] marks@[i] == (old(marks)@[i]
                || now.contains(i as usize)) by {
                if pre.contains(i as usize) {
                    let w = choose|w: int| 0 <= w < pre.len() && pre[w] == i as usize;
                    assert(now[w] == i as usize);
                }
                if i == target {
                    assert(now[k as int] == target);
                }
                if now.contains(i as usize) && i != target {
                    let w = choose|w: int| 0 <= w < now.len() && now[w] == i as usize;
                    assert(pre[w] == i as usize);
                }
            }
        }
        k += 1;
    }
    assert(list@.subrange(0, list.len() as int) =~= list@);
}

/// Sets the mark of the index, if there is one.
pub fn mark_one(marks: &mut Vec<bool>, i: Option<usize>)
    requires
        below(i, old(marks).len() as nat),
    ensures
        final(marks).len() == old(marks).len(),
        forall|j: int|
            0 <= j < old(marks).len() ==> #[trigger] final(marks)@[j] == (old(marks)@[j] || i == Some(
                j as usize,
            )),
{
    match i {
        Some(k) => {
            marks.set(k, true);
        },
        None => {},
    }
}

/// Sets the mark of the texture that is referred to, if any.
pub fn mark_ref(marks: &mut Vec<bool>, r: &Option<TextureRef>)
    requires
        ref_below(opt_view(*r), old(marks).len() as nat),
    ensures
        final(marks).len() == old(marks).len(),
        forall|j: int|
            0 <= j < old(marks).len() ==> #[trigger] final(marks)@[j] == (old(marks)@[j] || ref_is(
                opt_view(*r),
                j as usize,
            )),
{
    match r {
        Some(t) => {
            marks.set(t.texture, true);
        },
        None => {},
    }
}

impl Root {
    /// Finds which nodes are referred to.
    pub fn mark_nodes(&self) -> (r: Vec<bool>)
        requires
            self@.valid(),
        ensures
            r@ == node_marks(self@),
    {
        let n = self.nodes.len();
        let mut marks = no_marks(n);
        let mut s: usize = 0;
        while s < self.scenes.len()
            invariant
                s <= self.scenes.len(),
                self@.valid(),
                marks.len() == n,
                n == self.nodes.len(),
                forall|i: int| 0 <= i < n ==> #[trigger] marks@[i] == scenes_mention(self@, s as int, i as usize),
            decreases self.scenes.len() - s,
        {
            proof {
                reveal(RootView::valid);
            }
            assert(self@.scenes[s as int] == self.scenes@[s as int]@);
            assert(self@.scene_valid(self@.scenes[s as int]));
            let ghost before = marks@;
            mark_all(&mut marks, &self.scenes[s].nodes);
            proof {
                assert forall|i: int| 0 <= i < n implies #[trigger] marks@[i] == scenes_mention(
                    self@,
                    s + 1,
                    i as usize,
                ) by {
                    lemma_scenes_step(self@, s as int, i as usize);
                }
            }
            s += 1;
        }
        let mut p: usize = 0;
        while p < n
            invariant
                p <= n,
                self@.valid(),
                marks.len() == n,
                n == self.nodes.len(),
                forall|i: int|
                    0 <= i < n ==> #[trigger] marks@[i] == (scenes_mention(
                        self@,
                        self@.scenes.len() as int,
                        i as usize,
                    ) || nodes_mention_node(self@, p as int, i as usize)),
            decreases n - p,
        {
            proof {
                reveal(RootView::valid);
            }
            assert(self@.nodes[p as int] == self.nodes@[p as int]@);
            assert(self@.node_valid(self@.nodes[p as int]));
            mark_all(&mut marks, &self.nodes[p].children);
            proof {
                assert forall|i: int| 0 <= i < n implies #[trigger] marks@[i] == (scenes_mention(
                    self@,
                    self@.scenes.len() as int,
                    i as usize,
                ) || nodes_mention_node(self@, p + 1, i as usize)) by {
                    lemma_nodes_node_step(self@, p as int, i as usize);
                }
            }
            p += 1;
        }
        assert(marks@ =~= node_marks(self@));
        marks
    }

    /// Finds which meshes are referred to.
    pub fn mark_meshes(&self) -> (r: Vec<bool>)
        requires
            self@.valid(),
        ensures
            r@ == mesh_marks(self@),
    {
        let n = self.meshes.len();
        let mut marks = no_marks(n);
        let mut p: usize = 0;
        while p < self.nodes.len()
            invariant
                p <= self.nodes.len(),
                self@.valid(),
                marks.len() == n,
                n == self.meshes.len(),
                forall|i: int|
                    0 <= i < n ==> #[trigger] marks@[i] == nodes_mention_mesh(self@, p as int, i as usize),
            decreases self.nodes.len() - p,
        {
            proof {
                reveal(RootView::valid);
            }
            assert(self@.nodes[p as int] == self.nodes@[p as int]@);
            assert(self@.node_valid(self@.nodes[p as int]));
            mark_one(&mut marks, self.nodes[p].mesh);
            proof {
                assert forall|i: int| 0 <= i < n implies #[trigger] marks@[i] == nodes_mention_mesh(
                    self@,
                    p + 1,
                    i as usize,
                ) by {
                    lemma_nodes_mesh_step(self@, p as int, i as usize);
                }
            }
            p += 1;
        }
        assert(marks@ =~= mesh_marks(self@));
        marks
    }

    /// Finds which textures are referred to.
    pub fn mark_textures(&self) -> (r: Vec<bool>)
        requires
            self@.valid(),
        ensures
            r@ == texture_marks(self@),
    {
        let n = self.textures.len();
        let mut marks = no_marks(n);
        let mut m: usize = 0;
        while m < self.materials.len()
            invariant
                m <= self.materials.len(),
                self@.valid(),
                marks.len() == n,
                n == self.textures.len(),
                forall|i: int|
                    0 <= i < n ==> #[trigger] marks@[i] == materials_mention(self@, m as int, i as usize),
            decreases self.materials.len() - m,
        {
            proof {
                reveal(RootView::valid);
            }
            assert(self@.materials[m as int] == self.materials@[m as int]@);
            assert(self@.material_valid(self@.materials[m as int]));
            let x = &self.materials[m];
            match &x.pbr {
                Some(pbr) => {
                    mark_ref(&mut marks, &pbr.base_color);
                    mark_ref(&mut marks, &pbr.metallic_roughness);
                },
                None => {},
            }
            mark_ref(&mut marks, &x.normal);
            mark_ref(&mut marks, &x.occlusion);
            mark_ref(&mut marks, &x.emissive);
            proof {
                assert forall|i: int| 0 <= i < n implies #[trigger] marks@[i] == materials_mention(
                    self@,
                    m + 1,
                    i as usize,
                ) by {
                    lemma_materials_step(self@, m as int, i as usize);
                }
            }
            m += 1;
        }
        assert(marks@ =~= texture_marks(self@));
        marks
    }

    /// Finds which materials are referred to.
    pub fn mark_materials(&self) -> (r: Vec<bool>)
        requires
            self@.valid(),
        ensures
            r@ == material_marks(self@),
    {
        let n = self.materials.len();
        let mut marks = no_marks(n);
        let mut m: usize = 0;
        while m < self.meshes.len()
            invariant
                m <= self.meshes.len(),
                self@.valid(),
                marks.len() == n,
                n == self.materials.len(),
                forall|i: int|
                    0 <= i < n ==> #[trigger] marks@[i] == meshes_mention_material(self@, m as int, i as usize),
            decreases self.meshes.len() - m,
        {
            proof {
                reveal(RootView::valid);
            }
            assert(self@.meshes[m as int] == self.meshes@[m as int]@);
            assert(self@.mesh_valid(self@.meshes[m as int]));
            let mesh = &self.meshes[m];
            let mut q: usize = 0;
            while q < mesh.primitives.len()
                invariant
                    q <= mesh.primitives.len(),
                    m < self.meshes.len(),
                    *mesh == self.meshes@[m as int],
                    self@.meshes[m as int] == mesh@,
                    self@.mesh_valid(mesh@),
                    marks.len() == n,
                    n == self.materials.len(),
                    forall|i: int|
                        0 <= i < n ==> #[trigger] marks@[i] == (meshes_mention_material(
                            self@,
                            m as int,
                            i as usize,
                        ) || primitives_mention_material(self@, m as int, q as int, i as usize)),
                decreases mesh.primitives.len() - q,
            {
                assert(mesh@.primitives[q as int] == mesh.primitives@[q as int]@);
                assert(self@.primitive_valid(mesh@.primitives[q as int]));
                mark_one(&mut marks, mesh.primitives[q].material);
                proof {
                    assert forall|i: int| 0 <= i < n implies #[trigger] marks@[i] == (
                    meshes_mention_material(self@, m as int, i as usize) || primitives_mention_material(
                        self@,
                        m as int,
                        q + 1,
                        i as usize,
                    )) by {
                        lemma_primitives_material_step(self@, m as int, q as int, i as usize);
                    }
                }
                q += 1;
            }
            proof {
                assert forall|i: int| 0 <= i < n implies #[trigger] marks@[i] == meshes_mention_material(
                    self@,
                    m + 1,
                    i as usize,
                ) by {
                    lemma_meshes_material_step(self@, m as int, i as usize);
                }
            }
            m += 1;
        }
        assert(marks@ =~= material_marks(self@));
        marks
    }

    /// Finds which accessors are referred to.
    pub fn mark_accessors(&self) -> (r: Vec<bool>)
        requires
            self@.valid(),
        ensures
            r@ == accessor_marks(self@),
    {
        let n = self.accessors.len();
        let mut marks = no_marks(n);
        let mut m: usize = 0;
        while m < self.meshes.len()
            invariant
                m <= self.meshes.len(),
                self@.valid(),
                marks.len() == n,
                n == self.accessors.len(),
                forall|i: int|
                    0 <= i < n ==> #[trigger] marks@[i] == meshes_mention_accessor(self@, m as int, i as usize),
            decreases self.meshes.len() - m,
        {
            proof {
                reveal(RootView::valid);
            }
            assert(self@.meshes[m as int] == self.meshes@[m as int]@);
            assert(self@.mesh_valid(self@.meshes[m as int]));
            let mesh = &self.meshes[m];
            let mut q: usize = 0;
            while q < mesh.primitives.len()
                invariant
                    q <= mesh.primitives.len(),
                    m < self.meshes.len(),
                    self@.meshes[m as int] == mesh@,
                    self@.mesh_valid(mesh@),
                    marks.len() == n,
                    n == self.accessors.len(),
                    forall|i: int|
                        0 <= i < n ==> #[trigger] marks@[i] == (meshes_mention_accessor(
                            self@,
                            m as int,
                            i as usize,
                        ) || primitives_mention_accessor(self@, m as int, q as int, i as usize)),
                decreases mesh.primitives.len() - q,
            {
                assert(mesh@.primitives[q as int] == mesh.primitives@[q as int]@);
                assert(self@.primitive_valid(mesh@.primitives[q as int]));
                let primitive = &mesh.primitives[q];
                mark_one(&mut marks, primitive.indices);
                let mut a: usize = 0;
                while a < primitive.attributes.len()
                    invariant
                        a <= primitive.attributes.len(),
                        m < self.meshes.len(),
                        q < mesh.primitives.len(),
                        self@.meshes[m as int] == mesh@,
                        mesh@.primitives[q as int] == primitive@,
                        self@.primitive_valid(primitive@),
                        marks.len() == n,
                        n == self.accessors.len(),
                        forall|i: int|
                            0 <= i < n ==> #[trigger] marks@[i] == (meshes_mention_accessor(
                                self@,
                                m as int,
                                i as usize,
                            ) || primitives_mention_accessor(self@, m as int, q as int, i as usize)
                                || primitive@.indices == Some(i as usize) || attributes_mention(
                                self@,
                                m as int,
                                q as int,
                                a as int,
                                i as usize,
                            )),
                    decreases primitive.attributes.len() - a,
                {
                    assert(primitive@.attributes[a as int] == primitive.attributes@[a as int]@);
                    let target = primitive.attributes[a].accessor;
                    marks.set(target, true);
                    proof {
                        assert forall|i: int| 0 <= i < n implies #[trigger] marks@[i] == (
                        meshes_mention_accessor(self@, m as int, i as usize)
                            || primitives_mention_accessor(self@, m as int, q as int, i as usize)
                            || primitive@.indices == Some(i as usize) || attributes_mention(
                            self@,
                            m as int,
                            q as int,
                            a + 1,
                            i as usize,
                        )) by {
                            lemma_attributes_step(self@, m as int, q as int, a as int, i as usize);
                        }
                    }
                    a += 1;
                }
                proof {
                    assert forall|i: int| 0 <= i < n implies #[trigger] marks@[i] == (
                    meshes_mention_accessor(self@, m as int, i as usize) || primitives_mention_accessor(
                        self@,
                        m as int,
                        q + 1,
                        i as usize,
                    )) by {
                        lemma_primitives_accessor_step(self@, m as int, q as int, i as usize);
                    }
                }
                q += 1;
            }
            proof {
                assert forall|i: int| 0 <= i < n implies #[trigger] marks@[i] == meshes_mention_accessor(
                    self@,
                    m + 1,
                    i as usize,
                ) by {
                    lemma_meshes_accessor_step(self@, m as int, i as usize);
                }
            }
            m += 1;
        }
        assert(marks@ =~= accessor_marks(self@));
        marks
    }
}

} // verus!
