//! The entities of a document and their mathematical values.
//!
//! Each entity holds, typed, the references the graph is made of, and
//! beside them the members of its JSON object that are carried along as
//! they were written (`props`).
use vstd::prelude::*;
use crate::bytes::{clone_bytes, same_bytes};
use crate::fields::{keys_within, members_well_formed, texts_view};
use crate::props::is_allowed;
use crate::json::check_members;
use crate::json::{duplicate_members, members_view, same_members, Member, MemberView};
use crate::props::Kind;

verus! {

/// How deeply arrays and objects may nest in a value that is carried along
/// with an entity.
pub const PROPS_DEPTH: usize = 64;

/// The values of a sequence.
pub open spec fn views<T: View>(s: Seq<T>) -> Seq<T::V> {
    Seq::new(s.len(), |i: int| s[i]@)
}

/// The value of what may be there.
pub open spec fn opt_view<T: View>(o: Option<T>) -> Option<T::V> {
    match o {
        Some(x) => Some(x@),
        None => None,
    }
}

/// The bytes of a byte string that may be there.
pub open spec fn opt_bytes(o: Option<Vec<u8>>) -> Option<Seq<u8>> {
    match o {
        Some(b) => Some(b@),
        None => None,
    }
}

/// Whether `props` can be carried along with an object of `kind`: the kind
/// keeps every name, and every value is well formed within the depth that
/// is left to it.
pub open spec fn kept(props: Seq<MemberView>, kind: Kind) -> bool {
    keys_within(props, kind) && members_well_formed(props, PROPS_DEPTH as nat)
}

/// Decides whether `props` can be carried along with an object of `kind`.
pub fn check_kept(props: &Vec<Member>, kind: Kind) -> (r: bool)
    ensures
        r == kept(members_view(props@), kind),
{
    let ghost mv = members_view(props@);
    let mut i: usize = 0;
    while i < props.len()
        invariant
            i <= props.len(),
            mv == members_view(props@),
            forall|j: int| 0 <= j < i ==> crate::props::allowed(kind, (#[trigger] mv[j]).key),
        decreases props.len() - i,
    {
        assert(mv[i as int] == props@[i as int]@);
        if !is_allowed(kind, &props[i].key) {
            assert(mv.len() == props.len());
            assert(!crate::props::allowed(kind, mv[i as int].key));
            return false;
        }
        i += 1;
    }
    check_members(props, PROPS_DEPTH)
}

/// Copies a list of indices.
pub fn clone_indices(list: &Vec<usize>) -> (r: Vec<usize>)
    ensures
        r@ == list@,
{
    let mut out: Vec<usize> = Vec::new();
    let mut i: usize = 0;
    while i < list.len()
        invariant
            i <= list.len(),
            out@ == list@.subrange(0, i as int),
        decreases list.len() - i,
    {
        out.push(list[i]);
        i += 1;
    }
    assert(list@.subrange(0, list.len() as int) == list@);
    out
}

/// Decides whether two lists of indices are the same.
pub fn same_indices(a: &Vec<usize>, b: &Vec<usize>) -> (r: bool)
    ensures
        r == (a@ == b@),
{
    if a.len() != b.len() {
        return false;
    }
    let mut i: usize = 0;
    while i < a.len()
        invariant
            i <= a.len(),
            a.len() == b.len(),
            forall|j: int| 0 <= j < i ==> a@[j] == b@[j],
        decreases a.len() - i,
    {
        if a[i] != b[i] {
            return false;
        }
        i += 1;
    }
    assert(a@ =~= b@);
    true
}

/// Decides whether two optional indices are the same.
pub fn same_index(a: Option<usize>, b: Option<usize>) -> (r: bool)
    ensures
        r == (a == b),
{
    match (a, b) {
        (Some(x), Some(y)) => x == y,
        (None, None) => true,
        _ => false,
    }
}

/// Copies a byte string that may be there.
pub fn clone_text(t: &Option<Vec<u8>>) -> (r: Option<Vec<u8>>)
    ensures
        opt_bytes(r) == opt_bytes(*t),
{
    match t {
        Some(b) => Some(clone_bytes(b)),
        None => None,
    }
}

/// Decides whether two optional byte strings are the same.
pub fn same_text(a: &Option<Vec<u8>>, b: &Option<Vec<u8>>) -> (r: bool)
    ensures
        r == (opt_bytes(*a) == opt_bytes(*b)),
{
    match (a, b) {
        (Some(x), Some(y)) => same_bytes(x, y),
        (None, None) => true,
        _ => false,
    }
}

/// Copies a list of byte strings.
pub fn clone_texts(list: &Vec<Vec<u8>>) -> (r: Vec<Vec<u8>>)
    ensures
        texts_view(r@) == texts_view(list@),
{
    let mut out: Vec<Vec<u8>> = Vec::new();
    let mut i: usize = 0;
    while i < list.len()
        invariant
            i <= list.len(),
            out.len() == i,
            forall|j: int| 0 <= j < i ==> (#[trigger] out@[j])@ == list@[j]@,
        decreases list.len() - i,
    {
        out.push(clone_bytes(&list[i]));
        i += 1;
    }
    assert(texts_view(out@) =~= texts_view(list@));
    out
}

/// Decides whether two lists of byte strings are the same.
pub fn same_texts(a: &Vec<Vec<u8>>, b: &Vec<Vec<u8>>) -> (r: bool)
    ensures
        r == (texts_view(a@) == texts_view(b@)),
{
    if a.len() != b.len() {
        assert(texts_view(a@).len() != texts_view(b@).len());
        return false;
    }
    let mut i: usize = 0;
    while i < a.len()
        invariant
            i <= a.len(),
            a.len() == b.len(),
            forall|j: int| 0 <= j < i ==> a@[j]@ == b@[j]@,
        decreases a.len() - i,
    {
        if !same_bytes(&a[i], &b[i]) {
            assert(texts_view(a@)[i as int] != texts_view(b@)[i as int]);
            return false;
        }
        i += 1;
    }
    assert(texts_view(a@) =~= texts_view(b@));
    true
}

/// A vertex attribute of a primitive: its name and its accessor.
#[derive(Debug, PartialEq, Eq)]
pub struct Attribute {
    pub name: Vec<u8>,
    pub accessor: usize,
}

/// The mathematical value of an [`Attribute`].
pub struct AttributeView {
    pub name: Seq<u8>,
    pub accessor: usize,
}

impl View for Attribute {
    type V = AttributeView;

    open spec fn view(&self) -> AttributeView {
        AttributeView { name: self.name@, accessor: self.accessor }
    }
}

/// Copies a list of attributes.
pub fn clone_attributes(list: &Vec<Attribute>) -> (r: Vec<Attribute>)
    ensures
        views(r@) == views(list@),
{
    let mut out: Vec<Attribute> = Vec::new();
    let mut i: usize = 0;
    while i < list.len()
        invariant
            i <= list.len(),
            out.len() == i,
            forall|j: int| 0 <= j < i ==> (#[trigger] out@[j])@ == list@[j]@,
        decreases list.len() - i,
    {
        out.push(Attribute { name: clone_bytes(&list[i].name), accessor: list[i].accessor });
        i += 1;
    }
    assert(views(out@) =~= views(list@));
    out
}

/// Decides whether two lists of attributes are the same.
pub fn same_attributes(a: &Vec<Attribute>, b: &Vec<Attribute>) -> (r: bool)
    ensures
        r == (views(a@) == views(b@)),
{
    if a.len() != b.len() {
        assert(views(a@).len() != views(b@).len());
        return false;
    }
    let mut i: usize = 0;
    while i < a.len()
        invariant
            i <= a.len(),
            a.len() == b.len(),
            forall|j: int| 0 <= j < i ==> a@[j]@ == b@[j]@,
        decreases a.len() - i,
    {
        if !same_bytes(&a[i].name, &b[i].name) || a[i].accessor != b[i].accessor {
            assert(views(a@)[i as int] != views(b@)[i as int]);
            return false;
        }
        i += 1;
    }
    assert(views(a@) =~= views(b@));
    true
}

/// A material's reference to a texture.
#[derive(Debug, PartialEq, Eq)]
pub struct TextureRef {
    /// The texture (`index`).
    pub texture: usize,
    /// Members carried along as they were written.
    pub props: Vec<Member>,
}

/// The mathematical value of a [`TextureRef`].
pub struct TextureRefView {
    pub texture: usize,
    pub props: Seq<MemberView>,
}

impl View for TextureRef {
    type V = TextureRefView;

    open spec fn view(&self) -> TextureRefView {
        TextureRefView {
            texture: self.texture,
            props: members_view(self.props@),
        }
    }
}

impl TextureRefView {
    /// Whether what is carried along can be written and read back.
    pub open spec fn ok(self) -> bool {
        &&& kept(self.props, Kind::TextureRef)
    }
}

impl TextureRef {
    /// Copies the entity.
    pub fn duplicate(&self) -> (r: TextureRef)
        ensures
            r@ == self@,
    {
        let texture = self.texture;
        let props = duplicate_members(&self.props);
        TextureRef { texture, props }
    }

    /// Decides whether two entities have the same value.
    pub fn same(&self, other: &TextureRef) -> (r: bool)
        ensures
            r == (self@ == other@),
    {
        self.texture == other.texture
            && same_members(&self.props, &other.props)
    }

    /// Decides whether what is carried along can be written and read back.
    pub fn check_ok(&self) -> (r: bool)
        ensures
            r == self@.ok(),
    {
        let props_ok = check_kept(&self.props, Kind::TextureRef);
        props_ok
    }

    /// Decides whether the entity, if there is one, can be written and read
    /// back.
    pub fn check_optional(x: &Option<TextureRef>) -> (r: bool)
        ensures
            r == (opt_view(*x) matches Some(y) ==> y.ok()),
    {
        match x {
            Some(y) => y.check_ok(),
            None => true,
        }
    }

    /// Decides whether two optional entities have the same value.
    pub fn same_optional(a: &Option<TextureRef>, b: &Option<TextureRef>) -> (r: bool)
        ensures
            r == (opt_view(*a) == opt_view(*b)),
    {
        match (a, b) {
            (Some(x), Some(y)) => x.same(y),
            (None, None) => true,
            _ => false,
        }
    }
}

/// The metallic-roughness part of a material.
#[derive(Debug, PartialEq, Eq)]
pub struct Pbr {
    /// The base colour texture (`baseColorTexture`).
    pub base_color: Option<TextureRef>,
    /// The metallic-roughness texture (`metallicRoughnessTexture`).
    pub metallic_roughness: Option<TextureRef>,
    /// Members carried along as they were written.
    pub props: Vec<Member>,
}

/// The mathematical value of a [`Pbr`].
pub struct PbrView {
    pub base_color: Option<TextureRefView>,
    pub metallic_roughness: Option<TextureRefView>,
    pub props: Seq<MemberView>,
}

impl View for Pbr {
    type V = PbrView;

    open spec fn view(&self) -> PbrView {
        PbrView {
            base_color: opt_view(self.base_color),
            metallic_roughness: opt_view(self.metallic_roughness),
            props: members_view(self.props@),
        }
    }
}

impl PbrView {
    /// Whether what is carried along can be written and read back.
    pub open spec fn ok(self) -> bool {
        &&& kept(self.props, Kind::Pbr)
        &&& (self.base_color matches Some(x) ==> x.ok())
        &&& (self.metallic_roughness matches Some(x) ==> x.ok())
    }
}

impl Pbr {
    /// Copies the entity.
    pub fn duplicate(&self) -> (r: Pbr)
        ensures
            r@ == self@,
    {
        let base_color = match &self.base_color {
            Some(x) => Some(x.duplicate()),
            None => None,
        };
        let metallic_roughness = match &self.metallic_roughness {
            Some(x) => Some(x.duplicate()),
            None => None,
        };
        let props = duplicate_members(&self.props);
        Pbr { base_color, metallic_roughness, props }
    }

    /// Decides whether two entities have the same value.
    pub fn same(&self, other: &Pbr) -> (r: bool)
        ensures
            r == (self@ == other@),
    {
        TextureRef::same_optional(&self.base_color, &other.base_color)
            && TextureRef::same_optional(&self.metallic_roughness, &other.metallic_roughness)
            && same_members(&self.props, &other.props)
    }

    /// Decides whether what is carried along can be written and read back.
    pub fn check_ok(&self) -> (r: bool)
        ensures
            r == self@.ok(),
    {
        let props_ok = check_kept(&self.props, Kind::Pbr);
        let base_color_ok = TextureRef::check_optional(&self.base_color);
        let metallic_roughness_ok = TextureRef::check_optional(&self.metallic_roughness);
        props_ok
            && base_color_ok
            && metallic_roughness_ok
    }

    /// Decides whether the entity, if there is one, can be written and read
    /// back.
    pub fn check_optional(x: &Option<Pbr>) -> (r: bool)
        ensures
            r == (opt_view(*x) matches Some(y) ==> y.ok()),
    {
        match x {
            Some(y) => y.check_ok(),
            None => true,
        }
    }

    /// Decides whether two optional entities have the same value.
    pub fn same_optional(a: &Option<Pbr>, b: &Option<Pbr>) -> (r: bool)
        ensures
            r == (opt_view(*a) == opt_view(*b)),
    {
        match (a, b) {
            (Some(x), Some(y)) => x.same(y),
            (None, None) => true,
            _ => false,
        }
    }
}

/// A material: references to textures, and factors.
#[derive(Debug, PartialEq, Eq)]
pub struct Material {
    /// The metallic-roughness part (`pbrMetallicRoughness`).
    pub pbr: Option<Pbr>,
    /// The normal map (`normalTexture`).
    pub normal: Option<TextureRef>,
    /// The occlusion map (`occlusionTexture`).
    pub occlusion: Option<TextureRef>,
    /// The emissive map (`emissiveTexture`).
    pub emissive: Option<TextureRef>,
    /// Extension payloads by name (`extensions`).
    pub extensions: Vec<Member>,
    /// Members carried along as they were written.
    pub props: Vec<Member>,
}

/// The mathematical value of a [`Material`].
pub struct MaterialView {
    pub pbr: Option<PbrView>,
    pub normal: Option<TextureRefView>,
    pub occlusion: Option<TextureRefView>,
    pub emissive: Option<TextureRefView>,
    pub extensions: Seq<MemberView>,
    pub props: Seq<MemberView>,
}

impl View for Material {
    type V = MaterialView;

    open spec fn view(&self) -> MaterialView {
        MaterialView {
            pbr: opt_view(self.pbr),
            normal: opt_view(self.normal),
            occlusion: opt_view(self.occlusion),
            emissive: opt_view(self.emissive),
            extensions: members_view(self.extensions@),
            props: members_view(self.props@),
        }
    }
}

impl MaterialView {
    /// Whether what is carried along can be written and read back.
    #[verifier::opaque]
    pub open spec fn ok(self) -> bool {
        &&& kept(self.props, Kind::Material)
        &&& (self.pbr matches Some(x) ==> x.ok())
        &&& (self.normal matches Some(x) ==> x.ok())
        &&& (self.occlusion matches Some(x) ==> x.ok())
        &&& (self.emissive matches Some(x) ==> x.ok())
        &&& members_well_formed(self.extensions, PROPS_DEPTH as nat)
    }
}

impl Material {
    /// Copies the entity.
    pub fn duplicate(&self) -> (r: Material)
        ensures
            r@ == self@,
    {
        let pbr = match &self.pbr {
            Some(x) => Some(x.duplicate()),
            None => None,
        };
        let normal = match &self.normal {
            Some(x) => Some(x.duplicate()),
            None => None,
        };
        let occlusion = match &self.occlusion {
            Some(x) => Some(x.duplicate()),
            None => None,
        };
        let emissive = match &self.emissive {
            Some(x) => Some(x.duplicate()),
            None => None,
        };
        let extensions = duplicate_members(&self.extensions);
        let props = duplicate_members(&self.props);
        Material { pbr, normal, occlusion, emissive, extensions, props }
    }

    /// Copies a list of entities.
    pub fn duplicate_all(list: &Vec<Material>) -> (r: Vec<Material>)
        ensures
            views(r@) == views(list@),
    {
        let mut out: Vec<Material> = Vec::new();
        let mut i: usize = 0;
        while i < list.len()
            invariant
                i <= list.len(),
                out.len() == i,
                forall|j: int| 0 <= j < i ==> (#[trigger] out@[j])@ == list@[j]@,
            decreases list.len() - i,
        {
            out.push(list[i].duplicate());
            i += 1;
        }
        assert(views(out@) =~= views(list@));
        out
    }

    /// Decides whether two entities have the same value.
    pub fn same(&self, other: &Material) -> (r: bool)
        ensures
            r == (self@ == other@),
    {
        Pbr::same_optional(&self.pbr, &other.pbr)
            && TextureRef::same_optional(&self.normal, &other.normal)
            && TextureRef::same_optional(&self.occlusion, &other.occlusion)
            && TextureRef::same_optional(&self.emissive, &other.emissive)
            && same_members(&self.extensions, &other.extensions)
            && same_members(&self.props, &other.props)
    }

    /// Decides whether what is carried along can be written and read back.
    pub fn check_ok(&self) -> (r: bool)
        ensures
            r == self@.ok(),
    {
        proof {
            reveal(MaterialView::ok);
        }
        let props_ok = check_kept(&self.props, Kind::Material);
        let pbr_ok = Pbr::check_optional(&self.pbr);
        let normal_ok = TextureRef::check_optional(&self.normal);
        let occlusion_ok = TextureRef::check_optional(&self.occlusion);
        let emissive_ok = TextureRef::check_optional(&self.emissive);
        let extensions_ok = check_members(&self.extensions, PROPS_DEPTH);
        props_ok
            && pbr_ok
            && normal_ok
            && occlusion_ok
            && emissive_ok
            && extensions_ok
    }

    /// Decides whether every entity of the list can be written and read back.
    pub fn check_all(list: &Vec<Material>) -> (r: bool)
        ensures
            r == (forall|i: int| 0 <= i < views(list@).len() ==> (#[trigger] views(list@)[i]).ok()),
    {
        let mut i: usize = 0;
        while i < list.len()
            invariant
                i <= list.len(),
                forall|j: int| 0 <= j < i ==> (#[trigger] views(list@)[j]).ok(),
            decreases list.len() - i,
        {
            assert(views(list@)[i as int] == list@[i as int]@);
            if !list[i].check_ok() {
                assert(views(list@).len() == list.len());
                return false;
            }
            i += 1;
        }
        true
    }

    /// Decides whether two lists of entities have the same values.
    pub fn same_all(a: &Vec<Material>, b: &Vec<Material>) -> (r: bool)
        ensures
            r == (views(a@) == views(b@)),
    {
        if a.len() != b.len() {
            assert(views(a@).len() != views(b@).len());
            return false;
        }
        let mut i: usize = 0;
        while i < a.len()
            invariant
                i <= a.len(),
                a.len() == b.len(),
                forall|j: int| 0 <= j < i ==> a@[j]@ == b@[j]@,
            decreases a.len() - i,
        {
            if !a[i].same(&b[i]) {
                assert(views(a@)[i as int] != views(b@)[i as int]);
                return false;
            }
            i += 1;
        }
        assert(views(a@) =~= views(b@));
        true
    }
}

/// A primitive of a mesh.
#[derive(Debug, PartialEq, Eq)]
pub struct Primitive {
    /// The vertex attributes (`attributes`).
    pub attributes: Vec<Attribute>,
    /// The accessor of the vertex indices (`indices`).
    pub indices: Option<usize>,
    /// The material (`material`).
    pub material: Option<usize>,
    /// Members carried along as they were written.
    pub props: Vec<Member>,
}

/// The mathematical value of a [`Primitive`].
pub struct PrimitiveView {
    pub attributes: Seq<AttributeView>,
    pub indices: Option<usize>,
    pub material: Option<usize>,
    pub props: Seq<MemberView>,
}

impl View for Primitive {
    type V = PrimitiveView;

    open spec fn view(&self) -> PrimitiveView {
        PrimitiveView {
            attributes: views(self.attributes@),
            indices: self.indices,
            material: self.material,
            props: members_view(self.props@),
        }
    }
}

impl PrimitiveView {
    /// Whether what is carried along can be written and read back.
    pub open spec fn ok(self) -> bool {
        &&& kept(self.props, Kind::Primitive)
    }
}

impl Primitive {
    /// Copies the entity.
    pub fn duplicate(&self) -> (r: Primitive)
        ensures
            r@ == self@,
    {
        let attributes = clone_attributes(&self.attributes);
        let indices = self.indices;
        let material = self.material;
        let props = duplicate_members(&self.props);
        Primitive { attributes, indices, material, props }
    }

    /// Copies a list of entities.
    pub fn duplicate_all(list: &Vec<Primitive>) -> (r: Vec<Primitive>)
        ensures
            views(r@) == views(list@),
    {
        let mut out: Vec<Primitive> = Vec::new();
        let mut i: usize = 0;
        while i < list.len()
            invariant
                i <= list.len(),
                out.len() == i,
                forall|j: int| 0 <= j < i ==> (#[trigger] out@[j])@ == list@[j]@,
            decreases list.len() - i,
        {
            out.push(list[i].duplicate());
            i += 1;
        }
        assert(views(out@) =~= views(list@));
        out
    }

    /// Decides whether two entities have the same value.
    pub fn same(&self, other: &Primitive) -> (r: bool)
        ensures
            r == (self@ == other@),
    {
        same_attributes(&self.attributes, &other.attributes)
            && same_index(self.indices, other.indices)
            && same_index(self.material, other.material)
            && same_members(&self.props, &other.props)
    }

    /// Decides whether what is carried along can be written and read back.
    pub fn check_ok(&self) -> (r: bool)
        ensures
            r == self@.ok(),
    {
        let props_ok = check_kept(&self.props, Kind::Primitive);
        props_ok
    }

    /// Decides whether every entity of the list can be written and read back.
    pub fn check_all(list: &Vec<Primitive>) -> (r: bool)
        ensures
            r == (forall|i: int| 0 <= i < views(list@).len() ==> (#[trigger] views(list@)[i]).ok()),
    {
        let mut i: usize = 0;
        while i < list.len()
            invariant
                i <= list.len(),
                forall|j: int| 0 <= j < i ==> (#[trigger] views(list@)[j]).ok(),
            decreases list.len() - i,
        {
            assert(views(list@)[i as int] == list@[i as int]@);
            if !list[i].check_ok() {
                assert(views(list@).len() == list.len());
                return false;
            }
            i += 1;
        }
        true
    }

    /// Decides whether two lists of entities have the same values.
    pub fn same_all(a: &Vec<Primitive>, b: &Vec<Primitive>) -> (r: bool)
        ensures
            r == (views(a@) == views(b@)),
    {
        if a.len() != b.len() {
            assert(views(a@).len() != views(b@).len());
            return false;
        }
        let mut i: usize = 0;
        while i < a.len()
            invariant
                i <= a.len(),
                a.len() == b.len(),
                forall|j: int| 0 <= j < i ==> a@[j]@ == b@[j]@,
            decreases a.len() - i,
        {
            if !a[i].same(&b[i]) {
                assert(views(a@)[i as int] != views(b@)[i as int]);
                return false;
            }
            i += 1;
        }
        assert(views(a@) =~= views(b@));
        true
    }
}

/// A mesh: its primitives in order.
#[derive(Debug, PartialEq, Eq)]
pub struct Mesh {
    /// The primitives (`primitives`).
    pub primitives: Vec<Primitive>,
    /// Members carried along as they were written.
    pub props: Vec<Member>,
}

/// The mathematical value of a [`Mesh`].
pub struct MeshView {
    pub primitives: Seq<PrimitiveView>,
    pub props: Seq<MemberView>,
}

impl View for Mesh {
    type V = MeshView;

    open spec fn view(&self) -> MeshView {
        MeshView {
            primitives: views(self.primitives@),
            props: members_view(self.props@),
        }
    }
}

impl MeshView {
    /// Whether what is carried along can be written and read back.
    pub open spec fn ok(self) -> bool {
        &&& kept(self.props, Kind::Mesh)
        &&& (forall|i: int| 0 <= i < self.primitives.len() ==> (#[trigger] self.primitives[i]).ok())
    }
}

impl Mesh {
    /// Copies the entity.
    pub fn duplicate(&self) -> (r: Mesh)
        ensures
            r@ == self@,
    {
        let primitives = Primitive::duplicate_all(&self.primitives);
        let props = duplicate_members(&self.props);
        Mesh { primitives, props }
    }

    /// Copies a list of entities.
    pub fn duplicate_all(list: &Vec<Mesh>) -> (r: Vec<Mesh>)
        ensures
            views(r@) == views(list@),
    {
        let mut out: Vec<Mesh> = Vec::new();
        let mut i: usize = 0;
        while i < list.len()
            invariant
                i <= list.len(),
                out.len() == i,
                forall|j: int| 0 <= j < i ==> (#[trigger] out@[j])@ == list@[j]@,
            decreases list.len() - i,
        {
            out.push(list[i].duplicate());
            i += 1;
        }
        assert(views(out@) =~= views(list@));
        out
    }

    /// Decides whether two entities have the same value.
    pub fn same(&self, other: &Mesh) -> (r: bool)
        ensures
            r == (self@ == other@),
    {
        Primitive::same_all(&self.primitives, &other.primitives)
            && same_members(&self.props, &other.props)
    }

    /// Decides whether what is carried along can be written and read back.
    pub fn check_ok(&self) -> (r: bool)
        ensures
            r == self@.ok(),
    {
        let props_ok = check_kept(&self.props, Kind::Mesh);
        let primitives_ok = Primitive::check_all(&self.primitives);
        assert(self@.primitives == views(self.primitives@));
        assert(primitives_ok == (forall|i: int|
            0 <= i < self@.primitives.len() ==> (#[trigger] self@.primitives[i]).ok()));
        props_ok
            && primitives_ok
    }

    /// Decides whether every entity of the list can be written and read back.
    pub fn check_all(list: &Vec<Mesh>) -> (r: bool)
        ensures
            r == (forall|i: int| 0 <= i < views(list@).len() ==> (#[trigger] views(list@)[i]).ok()),
    {
        let mut i: usize = 0;
        while i < list.len()
            invariant
                i <= list.len(),
                forall|j: int| 0 <= j < i ==> (#[trigger] views(list@)[j]).ok(),
            decreases list.len() - i,
        {
            assert(views(list@)[i as int] == list@[i as int]@);
            if !list[i].check_ok() {
                assert(views(list@).len() == list.len());
                return false;
            }
            i += 1;
        }
        true
    }

    /// Decides whether two lists of entities have the same values.
    pub fn same_all(a: &Vec<Mesh>, b: &Vec<Mesh>) -> (r: bool)
        ensures
            r == (views(a@) == views(b@)),
    {
        if a.len() != b.len() {
            assert(views(a@).len() != views(b@).len());
            return false;
        }
        let mut i: usize = 0;
        while i < a.len()
            invariant
                i <= a.len(),
                a.len() == b.len(),
                forall|j: int| 0 <= j < i ==> a@[j]@ == b@[j]@,
            decreases a.len() - i,
        {
            if !a[i].same(&b[i]) {
                assert(views(a@)[i as int] != views(b@)[i as int]);
                return false;
            }
            i += 1;
        }
        assert(views(a@) =~= views(b@));
        true
    }
}

/// A node of the scene graph.
#[derive(Debug, PartialEq, Eq)]
pub struct Node {
    /// The child nodes in order (`children`).
    pub children: Vec<usize>,
    /// The mesh (`mesh`).
    pub mesh: Option<usize>,
    /// Extension payloads by name (`extensions`).
    pub extensions: Vec<Member>,
    /// Members carried along as they were written.
    pub props: Vec<Member>,
}

/// The mathematical value of a [`Node`].
pub struct NodeView {
    pub children: Seq<usize>,
    pub mesh: Option<usize>,
    pub extensions: Seq<MemberView>,
    pub props: Seq<MemberView>,
}

impl View for Node {
    type V = NodeView;

    open spec fn view(&self) -> NodeView {
        NodeView {
            children: self.children@,
            mesh: self.mesh,
            extensions: members_view(self.extensions@),
            props: members_view(self.props@),
        }
    }
}

impl NodeView {
    /// Whether what is carried along can be written and read back.
    pub open spec fn ok(self) -> bool {
        &&& kept(self.props, Kind::Node)
        &&& members_well_formed(self.extensions, PROPS_DEPTH as nat)
    }
}

impl Node {
    /// Copies the entity.
    pub fn duplicate(&self) -> (r: Node)
        ensures
            r@ == self@,
    {
        let children = clone_indices(&self.children);
        let mesh = self.mesh;
        let extensions = duplicate_members(&self.extensions);
        let props = duplicate_members(&self.props);
        Node { children, mesh, extensions, props }
    }

    /// Copies a list of entities.
    pub fn duplicate_all(list: &Vec<Node>) -> (r: Vec<Node>)
        ensures
            views(r@) == views(list@),
    {
        let mut out: Vec<Node> = Vec::new();
        let mut i: usize = 0;
        while i < list.len()
            invariant
                i <= list.len(),
                out.len() == i,
                forall|j: int| 0 <= j < i ==> (#[trigger] out@[j])@ == list@[j]@,
            decreases list.len() - i,
        {
            out.push(list[i].duplicate());
            i += 1;
        }
        assert(views(out@) =~= views(list@));
        out
    }

    /// Decides whether two entities have the same value.
    pub fn same(&self, other: &Node) -> (r: bool)
        ensures
            r == (self@ == other@),
    {
        same_indices(&self.children, &other.children)
            && same_index(self.mesh, other.mesh)
            && same_members(&self.extensions, &other.extensions)
            && same_members(&self.props, &other.props)
    }

    /// Decides whether what is carried along can be written and read back.
    pub fn check_ok(&self) -> (r: bool)
        ensures
            r == self@.ok(),
    {
        let props_ok = check_kept(&self.props, Kind::Node);
        let extensions_ok = check_members(&self.extensions, PROPS_DEPTH);
        props_ok
            && extensions_ok
    }

    /// Decides whether every entity of the list can be written and read back.
    pub fn check_all(list: &Vec<Node>) -> (r: bool)
        ensures
            r == (forall|i: int| 0 <= i < views(list@).len() ==> (#[trigger] views(list@)[i]).ok()),
    {
        let mut i: usize = 0;
        while i < list.len()
            invariant
                i <= list.len(),
                forall|j: int| 0 <= j < i ==> (#[trigger] views(list@)[j]).ok(),
            decreases list.len() - i,
        {
            assert(views(list@)[i as int] == list@[i as int]@);
            if !list[i].check_ok() {
                assert(views(list@).len() == list.len());
                return false;
            }
            i += 1;
        }
        true
    }

    /// Decides whether two lists of entities have the same values.
    pub fn same_all(a: &Vec<Node>, b: &Vec<Node>) -> (r: bool)
        ensures
            r == (views(a@) == views(b@)),
    {
        if a.len() != b.len() {
            assert(views(a@).len() != views(b@).len());
            return false;
        }
        let mut i: usize = 0;
        while i < a.len()
            invariant
                i <= a.len(),
                a.len() == b.len(),
                forall|j: int| 0 <= j < i ==> a@[j]@ == b@[j]@,
            decreases a.len() - i,
        {
            if !a[i].same(&b[i]) {
                assert(views(a@)[i as int] != views(b@)[i as int]);
                return false;
            }
            i += 1;
        }
        assert(views(a@) =~= views(b@));
        true
    }
}

/// A scene: its root nodes.
#[derive(Debug, PartialEq, Eq)]
pub struct Scene {
    /// The root nodes (`nodes`).
    pub nodes: Vec<usize>,
    /// Members carried along as they were written.
    pub props: Vec<Member>,
}

/// The mathematical value of a [`Scene`].
pub struct SceneView {
    pub nodes: Seq<usize>,
    pub props: Seq<MemberView>,
}

impl View for Scene {
    type V = SceneView;

    open spec fn view(&self) -> SceneView {
        SceneView {
            nodes: self.nodes@,
            props: members_view(self.props@),
        }
    }
}

impl SceneView {
    /// Whether what is carried along can be written and read back.
    pub open spec fn ok(self) -> bool {
        &&& kept(self.props, Kind::Scene)
    }
}

impl Scene {
    /// Copies the entity.
    pub fn duplicate(&self) -> (r: Scene)
        ensures
            r@ == self@,
    {
        let nodes = clone_indices(&self.nodes);
        let props = duplicate_members(&self.props);
        Scene { nodes, props }
    }

    /// Copies a list of entities.
    pub fn duplicate_all(list: &Vec<Scene>) -> (r: Vec<Scene>)
        ensures
            views(r@) == views(list@),
    {
        let mut out: Vec<Scene> = Vec::new();
        let mut i: usize = 0;
        while i < list.len()
            invariant
                i <= list.len(),
                out.len() == i,
                forall|j: int| 0 <= j < i ==> (#[trigger] out@[j])@ == list@[j]@,
            decreases list.len() - i,
        {
            out.push(list[i].duplicate());
            i += 1;
        }
        assert(views(out@) =~= views(list@));
        out
    }

    /// Decides whether two entities have the same value.
    pub fn same(&self, other: &Scene) -> (r: bool)
        ensures
            r == (self@ == other@),
    {
        same_indices(&self.nodes, &other.nodes)
            && same_members(&self.props, &other.props)
    }

    /// Decides whether what is carried along can be written and read back.
    pub fn check_ok(&self) -> (r: bool)
        ensures
            r == self@.ok(),
    {
        let props_ok = check_kept(&self.props, Kind::Scene);
        props_ok
    }

    /// Decides whether every entity of the list can be written and read back.
    pub fn check_all(list: &Vec<Scene>) -> (r: bool)
        ensures
            r == (forall|i: int| 0 <= i < views(list@).len() ==> (#[trigger] views(list@)[i]).ok()),
    {
        let mut i: usize = 0;
        while i < list.len()
            invariant
                i <= list.len(),
                forall|j: int| 0 <= j < i ==> (#[trigger] views(list@)[j]).ok(),
            decreases list.len() - i,
        {
            assert(views(list@)[i as int] == list@[i as int]@);
            if !list[i].check_ok() {
                assert(views(list@).len() == list.len());
                return false;
            }
            i += 1;
        }
        true
    }

    /// Decides whether two lists of entities have the same values.
    pub fn same_all(a: &Vec<Scene>, b: &Vec<Scene>) -> (r: bool)
        ensures
            r == (views(a@) == views(b@)),
    {
        if a.len() != b.len() {
            assert(views(a@).len() != views(b@).len());
            return false;
        }
        let mut i: usize = 0;
        while i < a.len()
            invariant
                i <= a.len(),
                a.len() == b.len(),
                forall|j: int| 0 <= j < i ==> a@[j]@ == b@[j]@,
            decreases a.len() - i,
        {
            if !a[i].same(&b[i]) {
                assert(views(a@)[i as int] != views(b@)[i as int]);
                return false;
            }
            i += 1;
        }
        assert(views(a@) =~= views(b@));
        true
    }
}

/// A texture: an image and how it is sampled.
#[derive(Debug, PartialEq, Eq)]
pub struct Texture {
    /// The image (`source`).
    pub source: Option<usize>,
    /// The sampler (`sampler`).
    pub sampler: Option<usize>,
    /// Extension payloads by name (`extensions`).
    pub extensions: Vec<Member>,
    /// Members carried along as they were written.
    pub props: Vec<Member>,
}

/// The mathematical value of a [`Texture`].
pub struct TextureView {
    pub source: Option<usize>,
    pub sampler: Option<usize>,
    pub extensions: Seq<MemberView>,
    pub props: Seq<MemberView>,
}

impl View for Texture {
    type V = TextureView;

    open spec fn view(&self) -> TextureView {
        TextureView {
            source: self.source,
            sampler: self.sampler,
            extensions: members_view(self.extensions@),
            props: members_view(self.props@),
        }
    }
}

impl TextureView {
    /// Whether what is carried along can be written and read back.
    pub open spec fn ok(self) -> bool {
        &&& kept(self.props, Kind::Texture)
        &&& members_well_formed(self.extensions, PROPS_DEPTH as nat)
    }
}

impl Texture {
    /// Copies the entity.
    pub fn duplicate(&self) -> (r: Texture)
        ensures
            r@ == self@,
    {
        let source = self.source;
        let sampler = self.sampler;
        let extensions = duplicate_members(&self.extensions);
        let props = duplicate_members(&self.props);
        Texture { source, sampler, extensions, props }
    }

    /// Copies a list of entities.
    pub fn duplicate_all(list: &Vec<Texture>) -> (r: Vec<Texture>)
        ensures
            views(r@) == views(list@),
    {
        let mut out: Vec<Texture> = Vec::new();
        let mut i: usize = 0;
        while i < list.len()
            invariant
                i <= list.len(),
                out.len() == i,
                forall|j: int| 0 <= j < i ==> (#[trigger] out@[j])@ == list@[j]@,
            decreases list.len() - i,
        {
            out.push(list[i].duplicate());
            i += 1;
        }
        assert(views(out@) =~= views(list@));
        out
    }

    /// Decides whether two entities have the same value.
    pub fn same(&self, other: &Texture) -> (r: bool)
        ensures
            r == (self@ == other@),
    {
        same_index(self.source, other.source)
            && same_index(self.sampler, other.sampler)
            && same_members(&self.extensions, &other.extensions)
            && same_members(&self.props, &other.props)
    }

    /// Decides whether what is carried along can be written and read back.
    pub fn check_ok(&self) -> (r: bool)
        ensures
            r == self@.ok(),
    {
        let props_ok = check_kept(&self.props, Kind::Texture);
        let extensions_ok = check_members(&self.extensions, PROPS_DEPTH);
        props_ok
            && extensions_ok
    }

    /// Decides whether every entity of the list can be written and read back.
    pub fn check_all(list: &Vec<Texture>) -> (r: bool)
        ensures
            r == (forall|i: int| 0 <= i < views(list@).len() ==> (#[trigger] views(list@)[i]).ok()),
    {
        let mut i: usize = 0;
        while i < list.len()
            invariant
                i <= list.len(),
                forall|j: int| 0 <= j < i ==> (#[trigger] views(list@)[j]).ok(),
            decreases list.len() - i,
        {
            assert(views(list@)[i as int] == list@[i as int]@);
            if !list[i].check_ok() {
                assert(views(list@).len() == list.len());
                return false;
            }
            i += 1;
        }
        true
    }

    /// Decides whether two lists of entities have the same values.
    pub fn same_all(a: &Vec<Texture>, b: &Vec<Texture>) -> (r: bool)
        ensures
            r == (views(a@) == views(b@)),
    {
        if a.len() != b.len() {
            assert(views(a@).len() != views(b@).len());
            return false;
        }
        let mut i: usize = 0;
        while i < a.len()
            invariant
                i <= a.len(),
                a.len() == b.len(),
                forall|j: int| 0 <= j < i ==> a@[j]@ == b@[j]@,
            decreases a.len() - i,
        {
            if !a[i].same(&b[i]) {
                assert(views(a@)[i as int] != views(b@)[i as int]);
                return false;
            }
            i += 1;
        }
        assert(views(a@) =~= views(b@));
        true
    }
}

/// An image: where its bytes are, and their type.
#[derive(Debug, PartialEq, Eq)]
pub struct Image {
    /// The buffer view that holds the bytes (`bufferView`).
    pub view: Option<usize>,
    /// The media type of the bytes (`mimeType`).
    pub mime: Option<Vec<u8>>,
    /// Where the bytes are, if not in a buffer view (`uri`).
    pub uri: Option<Vec<u8>>,
    /// Members carried along as they were written.
    pub props: Vec<Member>,
}

/// The mathematical value of a [`Image`].
pub struct ImageView {
    pub view: Option<usize>,
    pub mime: Option<Seq<u8>>,
    pub uri: Option<Seq<u8>>,
    pub props: Seq<MemberView>,
}

impl View for Image {
    type V = ImageView;

    open spec fn view(&self) -> ImageView {
        ImageView {
            view: self.view,
            mime: opt_bytes(self.mime),
            uri: opt_bytes(self.uri),
            props: members_view(self.props@),
        }
    }
}

impl ImageView {
    /// Whether what is carried along can be written and read back.
    pub open spec fn ok(self) -> bool {
        &&& kept(self.props, Kind::Image)
    }
}

impl Image {
    /// Copies the entity.
    pub fn duplicate(&self) -> (r: Image)
        ensures
            r@ == self@,
    {
        let view = self.view;
        let mime = clone_text(&self.mime);
        let uri = clone_text(&self.uri);
        let props = duplicate_members(&self.props);
        Image { view, mime, uri, props }
    }

    /// Copies a list of entities.
    pub fn duplicate_all(list: &Vec<Image>) -> (r: Vec<Image>)
        ensures
            views(r@) == views(list@),
    {
        let mut out: Vec<Image> = Vec::new();
        let mut i: usize = 0;
        while i < list.len()
            invariant
                i <= list.len(),
                out.len() == i,
                forall|j: int| 0 <= j < i ==> (#[trigger] out@[j])@ == list@[j]@,
            decreases list.len() - i,
        {
            out.push(list[i].duplicate());
            i += 1;
        }
        assert(views(out@) =~= views(list@));
        out
    }

    /// Decides whether two entities have the same value.
    pub fn same(&self, other: &Image) -> (r: bool)
        ensures
            r == (self@ == other@),
    {
        same_index(self.view, other.view)
            && same_text(&self.mime, &other.mime)
            && same_text(&self.uri, &other.uri)
            && same_members(&self.props, &other.props)
    }

    /// Decides whether what is carried along can be written and read back.
    pub fn check_ok(&self) -> (r: bool)
        ensures
            r == self@.ok(),
    {
        let props_ok = check_kept(&self.props, Kind::Image);
        props_ok
    }

    /// Decides whether every entity of the list can be written and read back.
    pub fn check_all(list: &Vec<Image>) -> (r: bool)
        ensures
            r == (forall|i: int| 0 <= i < views(list@).len() ==> (#[trigger] views(list@)[i]).ok()),
    {
        let mut i: usize = 0;
        while i < list.len()
            invariant
                i <= list.len(),
                forall|j: int| 0 <= j < i ==> (#[trigger] views(list@)[j]).ok(),
            decreases list.len() - i,
        {
            assert(views(list@)[i as int] == list@[i as int]@);
            if !list[i].check_ok() {
                assert(views(list@).len() == list.len());
                return false;
            }
            i += 1;
        }
        true
    }

    /// Decides whether two lists of entities have the same values.
    pub fn same_all(a: &Vec<Image>, b: &Vec<Image>) -> (r: bool)
        ensures
            r == (views(a@) == views(b@)),
    {
        if a.len() != b.len() {
            assert(views(a@).len() != views(b@).len());
            return false;
        }
        let mut i: usize = 0;
        while i < a.len()
            invariant
                i <= a.len(),
                a.len() == b.len(),
                forall|j: int| 0 <= j < i ==> a@[j]@ == b@[j]@,
            decreases a.len() - i,
        {
            if !a[i].same(&b[i]) {
                assert(views(a@)[i as int] != views(b@)[i as int]);
                return false;
            }
            i += 1;
        }
        assert(views(a@) =~= views(b@));
        true
    }
}

/// A sampler: wrap and filter modes.
#[derive(Debug, PartialEq, Eq)]
pub struct Sampler {
    /// Members carried along as they were written.
    pub props: Vec<Member>,
}

/// The mathematical value of a [`Sampler`].
pub struct SamplerView {
    pub props: Seq<MemberView>,
}

impl View for Sampler {
    type V = SamplerView;

    open spec fn view(&self) -> SamplerView {
        SamplerView {
            props: members_view(self.props@),
        }
    }
}

impl SamplerView {
    /// Whether what is carried along can be written and read back.
    pub open spec fn ok(self) -> bool {
        &&& kept(self.props, Kind::Sampler)
    }
}

impl Sampler {
    /// Copies the entity.
    pub fn duplicate(&self) -> (r: Sampler)
        ensures
            r@ == self@,
    {
        let props = duplicate_members(&self.props);
        Sampler { props }
    }

    /// Copies a list of entities.
    pub fn duplicate_all(list: &Vec<Sampler>) -> (r: Vec<Sampler>)
        ensures
            views(r@) == views(list@),
    {
        let mut out: Vec<Sampler> = Vec::new();
        let mut i: usize = 0;
        while i < list.len()
            invariant
                i <= list.len(),
                out.len() == i,
                forall|j: int| 0 <= j < i ==> (#[trigger] out@[j])@ == list@[j]@,
            decreases list.len() - i,
        {
            out.push(list[i].duplicate());
            i += 1;
        }
        assert(views(out@) =~= views(list@));
        out
    }

    /// Decides whether two entities have the same value.
    pub fn same(&self, other: &Sampler) -> (r: bool)
        ensures
            r == (self@ == other@),
    {
        same_members(&self.props, &other.props)
    }

    /// Decides whether what is carried along can be written and read back.
    pub fn check_ok(&self) -> (r: bool)
        ensures
            r == self@.ok(),
    {
        let props_ok = check_kept(&self.props, Kind::Sampler);
        props_ok
    }

    /// Decides whether every entity of the list can be written and read back.
    pub fn check_all(list: &Vec<Sampler>) -> (r: bool)
        ensures
            r == (forall|i: int| 0 <= i < views(list@).len() ==> (#[trigger] views(list@)[i]).ok()),
    {
        let mut i: usize = 0;
        while i < list.len()
            invariant
                i <= list.len(),
                forall|j: int| 0 <= j < i ==> (#[trigger] views(list@)[j]).ok(),
            decreases list.len() - i,
        {
            assert(views(list@)[i as int] == list@[i as int]@);
            if !list[i].check_ok() {
                assert(views(list@).len() == list.len());
                return false;
            }
            i += 1;
        }
        true
    }

    /// Decides whether two lists of entities have the same values.
    pub fn same_all(a: &Vec<Sampler>, b: &Vec<Sampler>) -> (r: bool)
        ensures
            r == (views(a@) == views(b@)),
    {
        if a.len() != b.len() {
            assert(views(a@).len() != views(b@).len());
            return false;
        }
        let mut i: usize = 0;
        while i < a.len()
            invariant
                i <= a.len(),
                a.len() == b.len(),
                forall|j: int| 0 <= j < i ==> a@[j]@ == b@[j]@,
            decreases a.len() - i,
        {
            if !a[i].same(&b[i]) {
                assert(views(a@)[i as int] != views(b@)[i as int]);
                return false;
            }
            i += 1;
        }
        assert(views(a@) =~= views(b@));
        true
    }
}

/// An accessor: a typed view into a buffer view.
#[derive(Debug, PartialEq, Eq)]
pub struct Accessor {
    /// The buffer view (`bufferView`).
    pub view: Option<usize>,
    /// Where the first element starts in the view (`byteOffset`).
    pub offset: usize,
    /// The code of the component type (`componentType`).
    pub component: usize,
    /// The number of elements (`count`).
    pub count: usize,
    /// The name of the element type (`type`).
    pub kind: Vec<u8>,
    /// Whether integer components stand for fractions (`normalized`).
    pub normalized: bool,
    /// Members carried along as they were written.
    pub props: Vec<Member>,
}

/// The mathematical value of a [`Accessor`].
pub struct AccessorView {
    pub view: Option<usize>,
    pub offset: usize,
    pub component: usize,
    pub count: usize,
    pub kind: Seq<u8>,
    pub normalized: bool,
    pub props: Seq<MemberView>,
}

impl View for Accessor {
    type V = AccessorView;

    open spec fn view(&self) -> AccessorView {
        AccessorView {
            view: self.view,
            offset: self.offset,
            component: self.component,
            count: self.count,
            kind: self.kind@,
            normalized: self.normalized,
            props: members_view(self.props@),
        }
    }
}

impl AccessorView {
    /// Whether what is carried along can be written and read back.
    #[verifier::opaque]
    pub open spec fn ok(self) -> bool {
        &&& kept(self.props, Kind::Accessor)
    }
}

impl Accessor {
    /// Copies the entity.
    pub fn duplicate(&self) -> (r: Accessor)
        ensures
            r@ == self@,
    {
        let view = self.view;
        let offset = self.offset;
        let component = self.component;
        let count = self.count;
        let kind = clone_bytes(&self.kind);
        let normalized = self.normalized;
        let props = duplicate_members(&self.props);
        Accessor { view, offset, component, count, kind, normalized, props }
    }

    /// Copies a list of entities.
    pub fn duplicate_all(list: &Vec<Accessor>) -> (r: Vec<Accessor>)
        ensures
            views(r@) == views(list@),
    {
        let mut out: Vec<Accessor> = Vec::new();
        let mut i: usize = 0;
        while i < list.len()
            invariant
                i <= list.len(),
                out.len() == i,
                forall|j: int| 0 <= j < i ==> (#[trigger] out@[j])@ == list@[j]@,
            decreases list.len() - i,
        {
            out.push(list[i].duplicate());
            i += 1;
        }
        assert(views(out@) =~= views(list@));
        out
    }

    /// Decides whether two entities have the same value.
    pub fn same(&self, other: &Accessor) -> (r: bool)
        ensures
            r == (self@ == other@),
    {
        same_index(self.view, other.view)
            && self.offset == other.offset
            && self.component == other.component
            && self.count == other.count
            && same_bytes(&self.kind, &other.kind)
            && self.normalized == other.normalized
            && same_members(&self.props, &other.props)
    }

    /// Decides whether what is carried along can be written and read back.
    pub fn check_ok(&self) -> (r: bool)
        ensures
            r == self@.ok(),
    {
        proof {
            reveal(AccessorView::ok);
        }
        let props_ok = check_kept(&self.props, Kind::Accessor);
        props_ok
    }

    /// Decides whether every entity of the list can be written and read back.
    pub fn check_all(list: &Vec<Accessor>) -> (r: bool)
        ensures
            r == (forall|i: int| 0 <= i < views(list@).len() ==> (#[trigger] views(list@)[i]).ok()),
    {
        let mut i: usize = 0;
        while i < list.len()
            invariant
                i <= list.len(),
                forall|j: int| 0 <= j < i ==> (#[trigger] views(list@)[j]).ok(),
            decreases list.len() - i,
        {
            assert(views(list@)[i as int] == list@[i as int]@);
            if !list[i].check_ok() {
                assert(views(list@).len() == list.len());
                return false;
            }
            i += 1;
        }
        true
    }

    /// Decides whether two lists of entities have the same values.
    pub fn same_all(a: &Vec<Accessor>, b: &Vec<Accessor>) -> (r: bool)
        ensures
            r == (views(a@) == views(b@)),
    {
        if a.len() != b.len() {
            assert(views(a@).len() != views(b@).len());
            return false;
        }
        let mut i: usize = 0;
        while i < a.len()
            invariant
                i <= a.len(),
                a.len() == b.len(),
                forall|j: int| 0 <= j < i ==> a@[j]@ == b@[j]@,
            decreases a.len() - i,
        {
            if !a[i].same(&b[i]) {
                assert(views(a@)[i as int] != views(b@)[i as int]);
                return false;
            }
            i += 1;
        }
        assert(views(a@) =~= views(b@));
        true
    }
}

/// What the JSON text says of a buffer.
#[derive(Debug, PartialEq, Eq)]
pub struct BufferDesc {
    /// The number of bytes (`byteLength`).
    pub length: usize,
    /// Where the bytes are, if not in the binary chunk (`uri`).
    pub uri: Option<Vec<u8>>,
    /// Members carried along as they were written.
    pub props: Vec<Member>,
}

/// The mathematical value of a [`BufferDesc`].
pub struct BufferDescView {
    pub length: usize,
    pub uri: Option<Seq<u8>>,
    pub props: Seq<MemberView>,
}

impl View for BufferDesc {
    type V = BufferDescView;

    open spec fn view(&self) -> BufferDescView {
        BufferDescView {
            length: self.length,
            uri: opt_bytes(self.uri),
            props: members_view(self.props@),
        }
    }
}

impl BufferDescView {
    /// Whether what is carried along can be written and read back.
    pub open spec fn ok(self) -> bool {
        &&& kept(self.props, Kind::Buffer)
    }
}

impl BufferDesc {
    /// Copies the entity.
    pub fn duplicate(&self) -> (r: BufferDesc)
        ensures
            r@ == self@,
    {
        let length = self.length;
        let uri = clone_text(&self.uri);
        let props = duplicate_members(&self.props);
        BufferDesc { length, uri, props }
    }

    /// Copies a list of entities.
    pub fn duplicate_all(list: &Vec<BufferDesc>) -> (r: Vec<BufferDesc>)
        ensures
            views(r@) == views(list@),
    {
        let mut out: Vec<BufferDesc> = Vec::new();
        let mut i: usize = 0;
        while i < list.len()
            invariant
                i <= list.len(),
                out.len() == i,
                forall|j: int| 0 <= j < i ==> (#[trigger] out@[j])@ == list@[j]@,
            decreases list.len() - i,
        {
            out.push(list[i].duplicate());
            i += 1;
        }
        assert(views(out@) =~= views(list@));
        out
    }

    /// Decides whether two entities have the same value.
    pub fn same(&self, other: &BufferDesc) -> (r: bool)
        ensures
            r == (self@ == other@),
    {
        self.length == other.length
            && same_text(&self.uri, &other.uri)
            && same_members(&self.props, &other.props)
    }

    /// Decides whether what is carried along can be written and read back.
    pub fn check_ok(&self) -> (r: bool)
        ensures
            r == self@.ok(),
    {
        let props_ok = check_kept(&self.props, Kind::Buffer);
        props_ok
    }

    /// Decides whether every entity of the list can be written and read back.
    pub fn check_all(list: &Vec<BufferDesc>) -> (r: bool)
        ensures
            r == (forall|i: int| 0 <= i < views(list@).len() ==> (#[trigger] views(list@)[i]).ok()),
    {
        let mut i: usize = 0;
        while i < list.len()
            invariant
                i <= list.len(),
                forall|j: int| 0 <= j < i ==> (#[trigger] views(list@)[j]).ok(),
            decreases list.len() - i,
        {
            assert(views(list@)[i as int] == list@[i as int]@);
            if !list[i].check_ok() {
                assert(views(list@).len() == list.len());
                return false;
            }
            i += 1;
        }
        true
    }

    /// Decides whether two lists of entities have the same values.
    pub fn same_all(a: &Vec<BufferDesc>, b: &Vec<BufferDesc>) -> (r: bool)
        ensures
            r == (views(a@) == views(b@)),
    {
        if a.len() != b.len() {
            assert(views(a@).len() != views(b@).len());
            return false;
        }
        let mut i: usize = 0;
        while i < a.len()
            invariant
                i <= a.len(),
                a.len() == b.len(),
                forall|j: int| 0 <= j < i ==> a@[j]@ == b@[j]@,
            decreases a.len() - i,
        {
            if !a[i].same(&b[i]) {
                assert(views(a@)[i as int] != views(b@)[i as int]);
                return false;
            }
            i += 1;
        }
        assert(views(a@) =~= views(b@));
        true
    }
}

/// What an asset says of itself.
#[derive(Debug, PartialEq, Eq)]
pub struct Asset {
    /// The glTF version the asset is written in (`version`).
    pub version: Vec<u8>,
    /// Members carried along as they were written.
    pub props: Vec<Member>,
}

/// The mathematical value of a [`Asset`].
pub struct AssetView {
    pub version: Seq<u8>,
    pub props: Seq<MemberView>,
}

impl View for Asset {
    type V = AssetView;

    open spec fn view(&self) -> AssetView {
        AssetView {
            version: self.version@,
            props: members_view(self.props@),
        }
    }
}

impl AssetView {
    /// Whether what is carried along can be written and read back.
    pub open spec fn ok(self) -> bool {
        &&& kept(self.props, Kind::Asset)
    }
}

impl Asset {
    /// Copies the entity.
    pub fn duplicate(&self) -> (r: Asset)
        ensures
            r@ == self@,
    {
        let version = clone_bytes(&self.version);
        let props = duplicate_members(&self.props);
        Asset { version, props }
    }

    /// Decides whether two entities have the same value.
    pub fn same(&self, other: &Asset) -> (r: bool)
        ensures
            r == (self@ == other@),
    {
        same_bytes(&self.version, &other.version)
            && same_members(&self.props, &other.props)
    }

    /// Decides whether what is carried along can be written and read back.
    pub fn check_ok(&self) -> (r: bool)
        ensures
            r == self@.ok(),
    {
        let props_ok = check_kept(&self.props, Kind::Asset);
        props_ok
    }
}

/// A buffer view: a range of bytes of a buffer.
#[derive(Debug, PartialEq, Eq)]
pub struct BufferView {
    /// The buffer (`buffer`).
    pub buffer: usize,
    /// Where the range starts (`byteOffset`).
    pub offset: usize,
    /// The length of the range (`byteLength`).
    pub length: usize,
    /// The distance between elements (`byteStride`).
    pub stride: Option<usize>,
    /// Members carried along as they were written.
    pub props: Vec<Member>,
}

/// The mathematical value of a [`BufferView`].
pub struct BufferViewView {
    pub buffer: usize,
    pub offset: usize,
    pub length: usize,
    pub stride: Option<usize>,
    pub props: Seq<MemberView>,
}

impl View for BufferView {
    type V = BufferViewView;

    open spec fn view(&self) -> BufferViewView {
        BufferViewView {
            buffer: self.buffer,
            offset: self.offset,
            length: self.length,
            stride: self.stride,
            props: members_view(self.props@),
        }
    }
}

impl BufferViewView {
    /// Whether what is carried along can be written and read back.
    pub open spec fn ok(self) -> bool {
        &&& kept(self.props, Kind::View)
    }
}

impl BufferView {
    /// Copies the entity.
    pub fn duplicate(&self) -> (r: BufferView)
        ensures
            r@ == self@,
    {
        let buffer = self.buffer;
        let offset = self.offset;
        let length = self.length;
        let stride = self.stride;
        let props = duplicate_members(&self.props);
        BufferView { buffer, offset, length, stride, props }
    }

    /// Copies a list of entities.
    pub fn duplicate_all(list: &Vec<BufferView>) -> (r: Vec<BufferView>)
        ensures
            views(r@) == views(list@),
    {
        let mut out: Vec<BufferView> = Vec::new();
        let mut i: usize = 0;
        while i < list.len()
            invariant
                i <= list.len(),
                out.len() == i,
                forall|j: int| 0 <= j < i ==> (#[trigger] out@[j])@ == list@[j]@,
            decreases list.len() - i,
        {
            out.push(list[i].duplicate());
            i += 1;
        }
        assert(views(out@) =~= views(list@));
        out
    }

    /// Decides whether two entities have the same value.
    pub fn same(&self, other: &BufferView) -> (r: bool)
        ensures
            r == (self@ == other@),
    {
        self.buffer == other.buffer
            && self.offset == other.offset
            && self.length == other.length
            && same_index(self.stride, other.stride)
            && same_members(&self.props, &other.props)
    }

    /// Decides whether what is carried along can be written and read back.
    pub fn check_ok(&self) -> (r: bool)
        ensures
            r == self@.ok(),
    {
        let props_ok = check_kept(&self.props, Kind::View);
        props_ok
    }

    /// Decides whether every entity of the list can be written and read back.
    pub fn check_all(list: &Vec<BufferView>) -> (r: bool)
        ensures
            r == (forall|i: int| 0 <= i < views(list@).len() ==> (#[trigger] views(list@)[i]).ok()),
    {
        let mut i: usize = 0;
        while i < list.len()
            invariant
                i <= list.len(),
                forall|j: int| 0 <= j < i ==> (#[trigger] views(list@)[j]).ok(),
            decreases list.len() - i,
        {
            assert(views(list@)[i as int] == list@[i as int]@);
            if !list[i].check_ok() {
                assert(views(list@).len() == list.len());
                return false;
            }
            i += 1;
        }
        true
    }

    /// Decides whether two lists of entities have the same values.
    pub fn same_all(a: &Vec<BufferView>, b: &Vec<BufferView>) -> (r: bool)
        ensures
            r == (views(a@) == views(b@)),
    {
        if a.len() != b.len() {
            assert(views(a@).len() != views(b@).len());
            return false;
        }
        let mut i: usize = 0;
        while i < a.len()
            invariant
                i <= a.len(),
                a.len() == b.len(),
                forall|j: int| 0 <= j < i ==> a@[j]@ == b@[j]@,
            decreases a.len() - i,
        {
            if !a[i].same(&b[i]) {
                assert(views(a@)[i as int] != views(b@)[i as int]);
                return false;
            }
            i += 1;
        }
        assert(views(a@) =~= views(b@));
        true
    }
}

/// The scene description of an asset: every entity, in declared order.
#[derive(Debug, PartialEq, Eq)]
pub struct Root {
    /// What the asset says of itself (`asset`).
    pub asset: Asset,
    /// The scene to show (`scene`).
    pub scene: Option<usize>,
    /// The scenes (`scenes`).
    pub scenes: Vec<Scene>,
    /// The nodes (`nodes`).
    pub nodes: Vec<Node>,
    /// The meshes (`meshes`).
    pub meshes: Vec<Mesh>,
    /// The materials (`materials`).
    pub materials: Vec<Material>,
    /// The textures (`textures`).
    pub textures: Vec<Texture>,
    /// The images (`images`).
    pub images: Vec<Image>,
    /// The samplers (`samplers`).
    pub samplers: Vec<Sampler>,
    /// The accessors (`accessors`).
    pub accessors: Vec<Accessor>,
    /// The buffer views (`bufferViews`).
    pub views: Vec<BufferView>,
    /// The buffers (`buffers`).
    pub buffers: Vec<BufferDesc>,
    /// The names of the extensions in use (`extensionsUsed`).
    pub extensions_used: Vec<Vec<u8>>,
    /// The names of the extensions a reader must know (`extensionsRequired`).
    pub extensions_required: Vec<Vec<u8>>,
    /// Extension payloads by name (`extensions`).
    pub extensions: Vec<Member>,
    /// Members carried along as they were written.
    pub props: Vec<Member>,
}

/// The mathematical value of a [`Root`].
pub struct RootView {
    pub asset: AssetView,
    pub scene: Option<usize>,
    pub scenes: Seq<SceneView>,
    pub nodes: Seq<NodeView>,
    pub meshes: Seq<MeshView>,
    pub materials: Seq<MaterialView>,
    pub textures: Seq<TextureView>,
    pub images: Seq<ImageView>,
    pub samplers: Seq<SamplerView>,
    pub accessors: Seq<AccessorView>,
    pub views: Seq<BufferViewView>,
    pub buffers: Seq<BufferDescView>,
    pub extensions_used: Seq<Seq<u8>>,
    pub extensions_required: Seq<Seq<u8>>,
    pub extensions: Seq<MemberView>,
    pub props: Seq<MemberView>,
}

impl View for Root {
    type V = RootView;

    open spec fn view(&self) -> RootView {
        RootView {
            asset: self.asset@,
            scene: self.scene,
            scenes: views(self.scenes@),
            nodes: views(self.nodes@),
            meshes: views(self.meshes@),
            materials: views(self.materials@),
            textures: views(self.textures@),
            images: views(self.images@),
            samplers: views(self.samplers@),
            accessors: views(self.accessors@),
            views: views(self.views@),
            buffers: views(self.buffers@),
            extensions_used: texts_view(self.extensions_used@),
            extensions_required: texts_view(self.extensions_required@),
            extensions: members_view(self.extensions@),
            props: members_view(self.props@),
        }
    }
}

impl RootView {
    /// Whether what is carried along can be written and read back.
    #[verifier::opaque]
    pub open spec fn ok(self) -> bool {
        &&& kept(self.props, Kind::Root)
        &&& self.asset.ok()
        &&& (forall|i: int| 0 <= i < self.scenes.len() ==> (#[trigger] self.scenes[i]).ok())
        &&& (forall|i: int| 0 <= i < self.nodes.len() ==> (#[trigger] self.nodes[i]).ok())
        &&& (forall|i: int| 0 <= i < self.meshes.len() ==> (#[trigger] self.meshes[i]).ok())
        &&& (forall|i: int| 0 <= i < self.materials.len() ==> (#[trigger] self.materials[i]).ok())
        &&& (forall|i: int| 0 <= i < self.textures.len() ==> (#[trigger] self.textures[i]).ok())
        &&& (forall|i: int| 0 <= i < self.images.len() ==> (#[trigger] self.images[i]).ok())
        &&& (forall|i: int| 0 <= i < self.samplers.len() ==> (#[trigger] self.samplers[i]).ok())
        &&& (forall|i: int| 0 <= i < self.accessors.len() ==> (#[trigger] self.accessors[i]).ok())
        &&& (forall|i: int| 0 <= i < self.views.len() ==> (#[trigger] self.views[i]).ok())
        &&& (forall|i: int| 0 <= i < self.buffers.len() ==> (#[trigger] self.buffers[i]).ok())
        &&& members_well_formed(self.extensions, PROPS_DEPTH as nat)
    }
}

impl Root {
    /// Copies the entity.
    pub fn duplicate(&self) -> (r: Root)
        ensures
            r@ == self@,
    {
        let asset = self.asset.duplicate();
        let scene = self.scene;
        let scenes = Scene::duplicate_all(&self.scenes);
        let nodes = Node::duplicate_all(&self.nodes);
        let meshes = Mesh::duplicate_all(&self.meshes);
        let materials = Material::duplicate_all(&self.materials);
        let textures = Texture::duplicate_all(&self.textures);
        let images = Image::duplicate_all(&self.images);
        let samplers = Sampler::duplicate_all(&self.samplers);
        let accessors = Accessor::duplicate_all(&self.accessors);
        let views = BufferView::duplicate_all(&self.views);
        let buffers = BufferDesc::duplicate_all(&self.buffers);
        let extensions_used = clone_texts(&self.extensions_used);
        let extensions_required = clone_texts(&self.extensions_required);
        let extensions = duplicate_members(&self.extensions);
        let props = duplicate_members(&self.props);
        Root { asset, scene, scenes, nodes, meshes, materials, textures, images, samplers, accessors, views, buffers, extensions_used, extensions_required, extensions, props }
    }

    /// Decides whether two entities have the same value.
    pub fn same(&self, other: &Root) -> (r: bool)
        ensures
            r == (self@ == other@),
    {
        self.asset.same(&other.asset)
            && same_index(self.scene, other.scene)
            && Scene::same_all(&self.scenes, &other.scenes)
            && Node::same_all(&self.nodes, &other.nodes)
            && Mesh::same_all(&self.meshes, &other.meshes)
            && Material::same_all(&self.materials, &other.materials)
            && Texture::same_all(&self.textures, &other.textures)
            && Image::same_all(&self.images, &other.images)
            && Sampler::same_all(&self.samplers, &other.samplers)
            && Accessor::same_all(&self.accessors, &other.accessors)
            && BufferView::same_all(&self.views, &other.views)
            && BufferDesc::same_all(&self.buffers, &other.buffers)
            && same_texts(&self.extensions_used, &other.extensions_used)
            && same_texts(&self.extensions_required, &other.extensions_required)
            && same_members(&self.extensions, &other.extensions)
            && same_members(&self.props, &other.props)
    }

    /// Decides whether what is carried along can be written and read back.
    pub fn check_ok(&self) -> (r: bool)
        ensures
            r == self@.ok(),
    {
        proof {
            reveal(RootView::ok);
        }
        let props_ok = check_kept(&self.props, Kind::Root);
        let asset_ok = self.asset.check_ok();
        let scenes_ok = Scene::check_all(&self.scenes);
        assert(self@.scenes == views(self.scenes@));
        assert(scenes_ok == (forall|i: int|
            0 <= i < self@.scenes.len() ==> (#[trigger] self@.scenes[i]).ok()));
        let nodes_ok = Node::check_all(&self.nodes);
        assert(self@.nodes == views(self.nodes@));
        assert(nodes_ok == (forall|i: int|
            0 <= i < self@.nodes.len() ==> (#[trigger] self@.nodes[i]).ok()));
        let meshes_ok = Mesh::check_all(&self.meshes);
        assert(self@.meshes == views(self.meshes@));
        assert(meshes_ok == (forall|i: int|
            0 <= i < self@.meshes.len() ==> (#[trigger] self@.meshes[i]).ok()));
        let materials_ok = Material::check_all(&self.materials);
        assert(self@.materials == views(self.materials@));
        assert(materials_ok == (forall|i: int|
            0 <= i < self@.materials.len() ==> (#[trigger] self@.materials[i]).ok()));
        let textures_ok = Texture::check_all(&self.textures);
        assert(self@.textures == views(self.textures@));
        assert(textures_ok == (forall|i: int|
            0 <= i < self@.textures.len() ==> (#[trigger] self@.textures[i]).ok()));
        let images_ok = Image::check_all(&self.images);
        assert(self@.images == views(self.images@));
        assert(images_ok == (forall|i: int|
            0 <= i < self@.images.len() ==> (#[trigger] self@.images[i]).ok()));
        let samplers_ok = Sampler::check_all(&self.samplers);
        assert(self@.samplers == views(self.samplers@));
        assert(samplers_ok == (forall|i: int|
            0 <= i < self@.samplers.len() ==> (#[trigger] self@.samplers[i]).ok()));
        let accessors_ok = Accessor::check_all(&self.accessors);
        assert(self@.accessors == views(self.accessors@));
        assert(accessors_ok == (forall|i: int|
            0 <= i < self@.accessors.len() ==> (#[trigger] self@.accessors[i]).ok()));
        let views_ok = BufferView::check_all(&self.views);
        assert(self@.views == views(self.views@));
        assert(views_ok == (forall|i: int|
            0 <= i < self@.views.len() ==> (#[trigger] self@.views[i]).ok()));
        let buffers_ok = BufferDesc::check_all(&self.buffers);
        assert(self@.buffers == views(self.buffers@));
        assert(buffers_ok == (forall|i: int|
            0 <= i < self@.buffers.len() ==> (#[trigger] self@.buffers[i]).ok()));
        let extensions_ok = check_members(&self.extensions, PROPS_DEPTH);
        props_ok
            && asset_ok
            && scenes_ok
            && nodes_ok
            && meshes_ok
            && materials_ok
            && textures_ok
            && images_ok
            && samplers_ok
            && accessors_ok
            && views_ok
            && buffers_ok
            && extensions_ok
    }
}

} // verus!
