//! The document: the scene description of an asset and the bytes of its
//! buffer, with what makes the two a valid graph.
use vstd::prelude::*;
use crate::entities::{
    views, Accessor, AccessorView, BufferDesc, BufferDescView, BufferView, BufferViewView, Image,
    ImageView, Material, MaterialView, Mesh, MeshView, Node, NodeView, Primitive, PrimitiveView, Root,
    RootView, Scene, SceneView, Texture, TextureRef, TextureRefView, TextureView,
};
use crate::acyclic::{acyclic, children_exist};
use crate::fields::{is_key, texts_view};
use crate::names::{MAT2, MAT3, MAT4, SCALAR, TWO_POINT_ZERO, VEC2, VEC3, VEC4};

verus! {

/// Whether the index, if there is one, is below `n`.
pub open spec fn below(i: Option<usize>, n: nat) -> bool {
    match i {
        Some(k) => k < n,
        None => true,
    }
}

/// Whether every index of the list is below `n`.
pub open spec fn all_below(list: Seq<usize>, n: nat) -> bool {
    forall|i: int| 0 <= i < list.len() ==> (#[trigger] list[i]) < n
}

/// Whether the texture that is referred to, if any, is below `n`.
pub open spec fn ref_below(r: Option<TextureRefView>, n: nat) -> bool {
    match r {
        Some(t) => t.texture < n,
        None => true,
    }
}

/// The number of bytes of a component with the type code `code`.
pub open spec fn component_size(code: usize) -> Option<nat> {
    if code == 5120 || code == 5121 {
        Some(1nat)
    } else if code == 5122 || code == 5123 {
        Some(2nat)
    } else if code == 5125 || code == 5126 {
        Some(4nat)
    } else {
        None
    }
}

/// The number of components of an element of the type named `kind`.
pub open spec fn arity(kind: Seq<u8>) -> Option<nat> {
    if kind == SCALAR@ {
        Some(1nat)
    } else if kind == VEC2@ {
        Some(2nat)
    } else if kind == VEC3@ {
        Some(3nat)
    } else if kind == VEC4@ || kind == MAT2@ {
        Some(4nat)
    } else if kind == MAT3@ {
        Some(9nat)
    } else if kind == MAT4@ {
        Some(16nat)
    } else {
        None
    }
}

/// The number of bytes from the start of the first of `count` elements to
/// the end of the last, where an element has `size` bytes and elements
/// start `stride` bytes apart.
pub open spec fn span(count: nat, stride: nat, size: nat) -> nat {
    if count == 0 {
        0
    } else {
        ((count - 1) * stride + size) as nat
    }
}

impl RootView {
    /// Whether the root nodes of the scene exist.
    pub open spec fn scene_valid(self, s: SceneView) -> bool {
        all_below(s.nodes, self.nodes.len())
    }

    /// Whether the children and the mesh of the node exist.
    pub open spec fn node_valid(self, n: NodeView) -> bool {
        all_below(n.children, self.nodes.len()) && below(n.mesh, self.meshes.len())
    }

    /// Whether the accessors and the material of the primitive exist.
    pub open spec fn primitive_valid(self, p: PrimitiveView) -> bool {
        &&& forall|i: int|
            0 <= i < p.attributes.len() ==> (#[trigger] p.attributes[i]).accessor < self.accessors.len()
        &&& below(p.indices, self.accessors.len())
        &&& below(p.material, self.materials.len())
    }

    /// Whether every primitive of the mesh is valid.
    pub open spec fn mesh_valid(self, m: MeshView) -> bool {
        forall|i: int| 0 <= i < m.primitives.len() ==> self.primitive_valid(#[trigger] m.primitives[i])
    }

    /// Whether the textures of the material exist.
    pub open spec fn material_valid(self, m: MaterialView) -> bool {
        let n = self.textures.len();
        &&& match m.pbr {
            Some(p) => ref_below(p.base_color, n) && ref_below(p.metallic_roughness, n),
            None => true,
        }
        &&& ref_below(m.normal, n)
        &&& ref_below(m.occlusion, n)
        &&& ref_below(m.emissive, n)
    }

    /// Whether the image and the sampler of the texture exist.
    pub open spec fn texture_valid(self, t: TextureView) -> bool {
        below(t.source, self.images.len()) && below(t.sampler, self.samplers.len())
    }

    /// Whether the image has its bytes in one place, a buffer view that
    /// exists or a URI.
    pub open spec fn image_valid(self, i: ImageView) -> bool {
        below(i.view, self.views.len()) && ((i.view is Some) != (i.uri is Some))
    }

    /// Whether the accessor has a known component type and element type, and
    /// its elements lie within its buffer view.
    pub open spec fn accessor_valid(self, a: AccessorView) -> bool {
        match (component_size(a.component), arity(a.kind)) {
            (Some(c), Some(n)) => match a.view {
                Some(v) => v < self.views.len() && a.offset + span(
                    a.count as nat,
                    match self.views[v as int].stride {
                        Some(s) => s as nat,
                        None => c * n,
                    },
                    c * n,
                ) <= self.views[v as int].length,
                None => true,
            },
            _ => false,
        }
    }

    /// Whether the range of the buffer view lies within its buffer.
    pub open spec fn view_valid(self, v: BufferViewView) -> bool {
        v.buffer < self.buffers.len() && v.offset + v.length <= self.buffers[v.buffer as int].length
    }

    /// Whether the bytes of the buffer are in the binary chunk.
    pub open spec fn buffer_valid(self, b: BufferDescView) -> bool {
        b.uri is None
    }

    /// Whether the description is a valid graph: it is written in glTF 2.0,
    /// every reference refers to an entity that exists, no node is its own
    /// descendant, every accessor lies within its buffer view and every
    /// buffer view within its buffer, and there is at most one buffer.
    #[verifier::opaque]
    pub open spec fn valid(self) -> bool {
        &&& self.asset.version == TWO_POINT_ZERO@
        &&& below(self.scene, self.scenes.len())
        &&& self.buffers.len() <= 1
        &&& acyclic(self.nodes)
        &&& forall|i: int| 0 <= i < self.scenes.len() ==> self.scene_valid(#[trigger] self.scenes[i])
        &&& forall|i: int| 0 <= i < self.nodes.len() ==> self.node_valid(#[trigger] self.nodes[i])
        &&& forall|i: int| 0 <= i < self.meshes.len() ==> self.mesh_valid(#[trigger] self.meshes[i])
        &&& forall|i: int| 0 <= i < self.materials.len() ==> self.material_valid(#[trigger] self.materials[i])
        &&& forall|i: int| 0 <= i < self.textures.len() ==> self.texture_valid(#[trigger] self.textures[i])
        &&& forall|i: int| 0 <= i < self.images.len() ==> self.image_valid(#[trigger] self.images[i])
        &&& forall|i: int| 0 <= i < self.accessors.len() ==> self.accessor_valid(#[trigger] self.accessors[i])
        &&& forall|i: int| 0 <= i < self.views.len() ==> self.view_valid(#[trigger] self.views[i])
        &&& forall|i: int| 0 <= i < self.buffers.len() ==> self.buffer_valid(#[trigger] self.buffers[i])
    }
}

/// Decides whether the index, if there is one, is below `n`.
pub fn is_below(i: Option<usize>, n: usize) -> (r: bool)
    ensures
        r == below(i, n as nat),
{
    match i {
        Some(k) => k < n,
        None => true,
    }
}

/// Decides whether every index of the list is below `n`.
pub fn are_below(list: &Vec<usize>, n: usize) -> (r: bool)
    ensures
        r == all_below(list@, n as nat),
{
    let mut i: usize = 0;
    while i < list.len()
        invariant
            i <= list.len(),
            forall|j: int| 0 <= j < i ==> (#[trigger] list@[j]) < n,
        decreases list.len() - i,
    {
        if list[i] >= n {
            return false;
        }
        i += 1;
    }
    true
}

/// Decides whether the texture that is referred to, if any, is below `n`.
pub fn is_ref_below(r: &Option<TextureRef>, n: usize) -> (b: bool)
    ensures
        b == ref_below(crate::entities::opt_view(*r), n as nat),
{
    match r {
        Some(t) => t.texture < n,
        None => true,
    }
}

impl Root {
    /// Decides whether the scene is valid.
    pub fn check_scene(&self, s: &Scene) -> (r: bool)
        ensures
            r == self@.scene_valid(s@),
    {
        are_below(&s.nodes, self.nodes.len())
    }

    /// Decides whether the node is valid.
    pub fn check_node(&self, n: &Node) -> (r: bool)
        ensures
            r == self@.node_valid(n@),
    {
        are_below(&n.children, self.nodes.len()) && is_below(n.mesh, self.meshes.len())
    }

    /// Decides whether the primitive is valid.
    pub fn check_primitive(&self, p: &Primitive) -> (r: bool)
        ensures
            r == self@.primitive_valid(p@),
    {
        let mut i: usize = 0;
        while i < p.attributes.len()
            invariant
                i <= p.attributes.len(),
                forall|j: int|
                    0 <= j < i ==> (#[trigger] p@.attributes[j]).accessor < self@.accessors.len(),
            decreases p.attributes.len() - i,
        {
            assert(p@.attributes[i as int] == p.attributes@[i as int]@);
            if p.attributes[i].accessor >= self.accessors.len() {
                return false;
            }
            i += 1;
        }
        is_below(p.indices, self.accessors.len()) && is_below(p.material, self.materials.len())
    }

    /// Decides whether the mesh is valid.
    pub fn check_mesh(&self, m: &Mesh) -> (r: bool)
        ensures
            r == self@.mesh_valid(m@),
    {
        let mut i: usize = 0;
        while i < m.primitives.len()
            invariant
                i <= m.primitives.len(),
                forall|j: int| 0 <= j < i ==> self@.primitive_valid(#[trigger] m@.primitives[j]),
            decreases m.primitives.len() - i,
        {
            assert(m@.primitives[i as int] == m.primitives@[i as int]@);
            if !self.check_primitive(&m.primitives[i]) {
                return false;
            }
            i += 1;
        }
        true
    }

    /// Decides whether the material is valid.
    pub fn check_material(&self, m: &Material) -> (r: bool)
        ensures
            r == self@.material_valid(m@),
    {
        let n = self.textures.len();
        let pbr = match &m.pbr {
            Some(p) => is_ref_below(&p.base_color, n) && is_ref_below(&p.metallic_roughness, n),
            None => true,
        };
        pbr && is_ref_below(&m.normal, n) && is_ref_below(&m.occlusion, n) && is_ref_below(&m.emissive, n)
    }

    /// Decides whether the texture is valid.
    pub fn check_texture(&self, t: &Texture) -> (r: bool)
        ensures
            r == self@.texture_valid(t@),
    {
        is_below(t.source, self.images.len()) && is_below(t.sampler, self.samplers.len())
    }

    /// Decides whether the image is valid.
    pub fn check_image(&self, i: &Image) -> (r: bool)
        ensures
            r == self@.image_valid(i@),
    {
        is_below(i.view, self.views.len()) && (i.view.is_some() != i.uri.is_some())
    }

    /// Decides whether the accessor is valid.
    pub fn check_accessor(&self, a: &Accessor) -> (r: bool)
        ensures
            r == self@.accessor_valid(a@),
    {
        let c: usize = if a.component == 5120 || a.component == 5121 {
            1
        } else if a.component == 5122 || a.component == 5123 {
            2
        } else if a.component == 5125 || a.component == 5126 {
            4
        } else {
            return false;
        };
        let n: usize = if is_key(&a.kind, &SCALAR) {
            1
        } else if is_key(&a.kind, &VEC2) {
            2
        } else if is_key(&a.kind, &VEC3) {
            3
        } else if is_key(&a.kind, &VEC4) || is_key(&a.kind, &MAT2) {
            4
        } else if is_key(&a.kind, &MAT3) {
            9
        } else if is_key(&a.kind, &MAT4) {
            16
        } else {
            return false;
        };
        let size: usize = c * n;
        match a.view {
            None => true,
            Some(v) => {
                if v >= self.views.len() {
                    return false;
                }
                assert(self@.views[v as int] == self.views@[v as int]@);
                let view = &self.views[v];
                let stride: usize = match view.stride {
                    Some(s) => s,
                    None => size,
                };
                if a.count == 0 {
                    return a.offset <= view.length;
                }
                let steps: u128 = (a.count - 1) as u128;
                assert(steps * (stride as u128) <= 0xFFFF_FFFF_FFFF_FFFFu128 * 0xFFFF_FFFF_FFFF_FFFFu128)
                    by (nonlinear_arith)
                    requires
                        steps <= 0xFFFF_FFFF_FFFF_FFFFu128,
                        stride <= 0xFFFF_FFFF_FFFF_FFFFu128,
                ;
                let total: u128 = steps * (stride as u128) + size as u128 + a.offset as u128;
                total <= view.length as u128
            },
        }
    }

    /// Decides whether the buffer view is valid.
    pub fn check_view(&self, v: &BufferView) -> (r: bool)
        ensures
            r == self@.view_valid(v@),
    {
        if v.buffer >= self.buffers.len() {
            return false;
        }
        assert(self@.buffers[v.buffer as int] == self.buffers@[v.buffer as int]@);
        let n = self.buffers[v.buffer].length;
        v.offset <= n && v.length <= n - v.offset
    }

    /// Decides whether the buffer is valid.
    pub fn check_buffer(&self, b: &BufferDesc) -> (r: bool)
        ensures
            r == self@.buffer_valid(b@),
    {
        b.uri.is_none()
    }

    /// Decides whether every entry of `scenes` is valid.
    fn check_scenes(&self) -> (r: bool)
        ensures
            r == (forall|i: int| 0 <= i < self@.scenes.len() ==> self@.scene_valid(#[trigger] self@.scenes[i])),
    {
        let mut i: usize = 0;
        while i < self.scenes.len()
            invariant
                i <= self.scenes.len(),
                forall|j: int| 0 <= j < i ==> self@.scene_valid(#[trigger] self@.scenes[j]),
            decreases self.scenes.len() - i,
        {
            assert(self@.scenes[i as int] == self.scenes@[i as int]@);
            if !self.check_scene(&self.scenes[i]) {
                return false;
            }
            i += 1;
        }
        true
    }

    /// Decides whether every entry of `nodes` is valid.
    fn check_nodes(&self) -> (r: bool)
        ensures
            r == (forall|i: int| 0 <= i < self@.nodes.len() ==> self@.node_valid(#[trigger] self@.nodes[i])),
    {
        let mut i: usize = 0;
        while i < self.nodes.len()
            invariant
                i <= self.nodes.len(),
                forall|j: int| 0 <= j < i ==> self@.node_valid(#[trigger] self@.nodes[j]),
            decreases self.nodes.len() - i,
        {
            assert(self@.nodes[i as int] == self.nodes@[i as int]@);
            if !self.check_node(&self.nodes[i]) {
                return false;
            }
            i += 1;
        }
        true
    }

    /// Decides whether every entry of `meshes` is valid.
    fn check_meshes(&self) -> (r: bool)
        ensures
            r == (forall|i: int| 0 <= i < self@.meshes.len() ==> self@.mesh_valid(#[trigger] self@.meshes[i])),
    {
        let mut i: usize = 0;
        while i < self.meshes.len()
            invariant
                i <= self.meshes.len(),
                forall|j: int| 0 <= j < i ==> self@.mesh_valid(#[trigger] self@.meshes[j]),
            decreases self.meshes.len() - i,
        {
            assert(self@.meshes[i as int] == self.meshes@[i as int]@);
            if !self.check_mesh(&self.meshes[i]) {
                return false;
            }
            i += 1;
        }
        true
    }

    /// Decides whether every entry of `materials` is valid.
    fn check_materials(&self) -> (r: bool)
        ensures
            r == (forall|i: int| 0 <= i < self@.materials.len() ==> self@.material_valid(#[trigger] self@.materials[i])),
    {
        let mut i: usize = 0;
        while i < self.materials.len()
            invariant
                i <= self.materials.len(),
                forall|j: int| 0 <= j < i ==> self@.material_valid(#[trigger] self@.materials[j]),
            decreases self.materials.len() - i,
        {
            assert(self@.materials[i as int] == self.materials@[i as int]@);
            if !self.check_material(&self.materials[i]) {
                return false;
            }
            i += 1;
        }
        true
    }

    /// Decides whether every entry of `textures` is valid.
    fn check_textures(&self) -> (r: bool)
        ensures
            r == (forall|i: int| 0 <= i < self@.textures.len() ==> self@.texture_valid(#[trigger] self@.textures[i])),
    {
        let mut i: usize = 0;
        while i < self.textures.len()
            invariant
                i <= self.textures.len(),
                forall|j: int| 0 <= j < i ==> self@.texture_valid(#[trigger] self@.textures[j]),
            decreases self.textures.len() - i,
        {
            assert(self@.textures[i as int] == self.textures@[i as int]@);
            if !self.check_texture(&self.textures[i]) {
                return false;
            }
            i += 1;
        }
        true
    }

    /// Decides whether every entry of `images` is valid.
    fn check_images(&self) -> (r: bool)
        ensures
            r == (forall|i: int| 0 <= i < self@.images.len() ==> self@.image_valid(#[trigger] self@.images[i])),
    {
        let mut i: usize = 0;
        while i < self.images.len()
            invariant
                i <= self.images.len(),
                forall|j: int| 0 <= j < i ==> self@.image_valid(#[trigger] self@.images[j]),
            decreases self.images.len() - i,
        {
            assert(self@.images[i as int] == self.images@[i as int]@);
            if !self.check_image(&self.images[i]) {
                return false;
            }
            i += 1;
        }
        true
    }

    /// Decides whether every entry of `accessors` is valid.
    fn check_accessors(&self) -> (r: bool)
        ensures
            r == (forall|i: int| 0 <= i < self@.accessors.len() ==> self@.accessor_valid(#[trigger] self@.accessors[i])),
    {
        let mut i: usize = 0;
        while i < self.accessors.len()
            invariant
                i <= self.accessors.len(),
                forall|j: int| 0 <= j < i ==> self@.accessor_valid(#[trigger] self@.accessors[j]),
            decreases self.accessors.len() - i,
        {
            assert(self@.accessors[i as int] == self.accessors@[i as int]@);
            if !self.check_accessor(&self.accessors[i]) {
                return false;
            }
            i += 1;
        }
        true
    }

    /// Decides whether every entry of `views` is valid.
    fn check_views(&self) -> (r: bool)
        ensures
            r == (forall|i: int| 0 <= i < self@.views.len() ==> self@.view_valid(#[trigger] self@.views[i])),
    {
        let mut i: usize = 0;
        while i < self.views.len()
            invariant
                i <= self.views.len(),
                forall|j: int| 0 <= j < i ==> self@.view_valid(#[trigger] self@.views[j]),
            decreases self.views.len() - i,
        {
            assert(self@.views[i as int] == self.views@[i as int]@);
            if !self.check_view(&self.views[i]) {
                return false;
            }
            i += 1;
        }
        true
    }

    /// Decides whether every entry of `buffers` is valid.
    fn check_buffers(&self) -> (r: bool)
        ensures
            r == (forall|i: int| 0 <= i < self@.buffers.len() ==> self@.buffer_valid(#[trigger] self@.buffers[i])),
    {
        let mut i: usize = 0;
        while i < self.buffers.len()
            invariant
                i <= self.buffers.len(),
                forall|j: int| 0 <= j < i ==> self@.buffer_valid(#[trigger] self@.buffers[j]),
            decreases self.buffers.len() - i,
        {
            assert(self@.buffers[i as int] == self.buffers@[i as int]@);
            if !self.check_buffer(&self.buffers[i]) {
                return false;
            }
            i += 1;
        }
        true
    }

    /// Decides whether the description is a valid graph.
    pub fn check(&self) -> (r: bool)
        ensures
            r == self@.valid(),
    {
        proof {
            reveal(RootView::valid);
        }
        let refs = is_key(&self.asset.version, &TWO_POINT_ZERO) && is_below(self.scene, self.scenes.len())
            && self.buffers.len() <= 1
            && self.check_scenes()
            && self.check_nodes()
            && self.check_meshes()
            && self.check_materials()
            && self.check_textures()
            && self.check_images()
            && self.check_accessors()
            && self.check_views()
            && self.check_buffers()
        ;
        if !refs {
            return false;
        }
        assert(children_exist(self@.nodes)) by {
            assert forall|p: int| 0 <= p < self@.nodes.len() implies crate::document::all_below(
                (#[trigger] self@.nodes[p]).children,
                self@.nodes.len(),
            ) by {
                assert(self@.node_valid(self@.nodes[p]));
            }
        }
        self.check_acyclic()
    }
}

/// A document: the scene description of an asset, and the bytes of its
/// buffer.
#[derive(Debug, PartialEq, Eq)]
pub struct Document {
    /// The scene description.
    pub root: Root,
    /// The bytes of each buffer of the description.
    pub data: Vec<Vec<u8>>,
}

/// The mathematical value of a [`Document`].
pub struct DocumentView {
    pub root: RootView,
    pub data: Seq<Seq<u8>>,
}

impl View for Document {
    type V = DocumentView;

    open spec fn view(&self) -> DocumentView {
        DocumentView { root: self.root@, data: texts_view(self.data@) }
    }
}

impl DocumentView {
    /// Whether the document is well formed: its description can be written
    /// and read back, it is a valid graph, and each buffer has the bytes
    /// that the description says it has.
    pub open spec fn wf(self) -> bool {
        &&& self.root.ok()
        &&& self.root.valid()
        &&& self.data.len() == self.root.buffers.len()
        &&& forall|i: int|
            0 <= i < self.data.len() ==> (#[trigger] self.data[i]).len() == self.root.buffers[i].length
    }
}

} // verus!
