//! How each entity is written as a JSON object and read from one.
use vstd::prelude::*;
use crate::bytes::clone_bytes;
use crate::entities::{
    kept, opt_bytes, opt_view, views, Accessor, AccessorView, Asset, AssetView, Attribute, AttributeView,
    BufferDesc, BufferDescView, BufferView, BufferViewView, Root, RootView, Image, ImageView, Material, MaterialView, Mesh, MeshView, Node, NodeView, Pbr, PbrView,
    Primitive, PrimitiveView, Sampler, SamplerView, Scene, SceneView, Texture, TextureRef, TextureRefView,
    TextureView, PROPS_DEPTH,
};
use crate::fields::{
    array, def_index, find, flag, get_array, get_def_index, get_flag, get_index, get_index_list,
    get_object, get_req_index, get_req_text, get_text, group_members, index_json, index_list, index_of,
    keep, keys_within, lemma_find_absent, lemma_index_json, lemma_indices_json, lemma_retain_all,
    lemma_find_concat, lemma_find_with_member, lemma_retain_concat, lemma_retain_with_member,
    lemma_well_formed_concat, lemma_well_formed_with_member, indices_json, lemma_retain_sound, lookup, members_well_formed, nonzero, opt_index, opt_object, opt_text, put,
    put_all, put_array, put_flag, put_index, put_index_list, put_object, put_text, read_index, req_index,
    req_text, retain, texts_of, get_text_list, lemma_texts_json, text_list, texts_json, texts_value, texts_view, with_array, with_flag, with_index, with_index_list, with_member, with_object,
    with_text, index_value,
};
use crate::json::{
    check_members, duplicate_members, items_view, lemma_array_view, lemma_object_view,
    lemma_well_formed_deeper, members_view, well_formed, Json, JsonView, Member, MemberView,
};
use crate::names::{
    ACCESSORS,
    ASSET,
    ATTRIBUTES,
    BASE_COLOR_TEXTURE,
    BUFFER,
    BUFFERS,
    BUFFER_VIEW,
    BUFFER_VIEWS,
    BYTE_LENGTH,
    BYTE_OFFSET,
    BYTE_STRIDE,
    CHILDREN,
    COMPONENT_TYPE,
    COUNT,
    EMISSIVE_TEXTURE,
    EXTENSIONS,
    EXTENSIONS_REQUIRED,
    EXTENSIONS_USED,
    IMAGES,
    INDEX,
    INDICES,
    KIND,
    MATERIAL,
    MATERIALS,
    MESH,
    MESHES,
    METALLIC_ROUGHNESS_TEXTURE,
    MIME_TYPE,
    NODES,
    NORMALIZED,
    NORMAL_TEXTURE,
    OCCLUSION_TEXTURE,
    PBR_METALLIC_ROUGHNESS,
    PRIMITIVES,
    SAMPLER,
    SAMPLERS,
    SCENE,
    SCENES,
    SOURCE,
    TEXTURES,
    URI,
    VERSION,
};
use crate::props::{
    lemma_names_accessor,
    lemma_names_asset,
    lemma_names_buffer,
    lemma_names_image,
    lemma_names_material,
    lemma_names_mesh,
    lemma_names_node,
    lemma_names_pbr,
    lemma_names_primitive,
    lemma_names_root,
    lemma_names_scene,
    lemma_names_texture,
    lemma_names_texture_ref,
    lemma_names_view,
    Kind,
};

verus! {

/// Values that are well formed within a depth are well formed within every
/// greater depth.
pub proof fn lemma_members_deeper(ms: Seq<MemberView>, d1: nat, d2: nat)
    requires
        members_well_formed(ms, d1),
        d1 <= d2,
    ensures
        members_well_formed(ms, d2),
{
    assert forall|i: int| 0 <= i < ms.len() implies well_formed((#[trigger] ms[i]).value, d2) by {
        lemma_well_formed_deeper(ms[i].value, d1, d2);
    }
}

/// An object is well formed one level above its members.
pub proof fn lemma_object_well_formed(ms: Seq<MemberView>, d: nat)
    requires
        members_well_formed(ms, d),
    ensures
        well_formed(JsonView::Object(ms), d + 1),
{
    assert forall|i: int| 0 <= i < ms.len() implies well_formed(
        (#[trigger] ms[i]).value,
        ((d + 1) - 1) as nat,
    ) by {}
}

/// An array is well formed one level above its items.
pub proof fn lemma_array_well_formed(items: Seq<JsonView>, d: nat)
    requires
        forall|i: int| 0 <= i < items.len() ==> well_formed(#[trigger] items[i], d),
    ensures
        well_formed(JsonView::Array(items), d + 1),
{
    assert forall|i: int| 0 <= i < items.len() implies well_formed(
        #[trigger] items[i],
        ((d + 1) - 1) as nat,
    ) by {}
}

/// The extension payloads under `key`: none where the member is absent,
/// nothing where it is no object or a payload nests too deeply.
pub open spec fn payloads(ms: Seq<MemberView>, key: Seq<u8>) -> Option<Seq<MemberView>> {
    match opt_object(ms, key) {
        Some(Some(inner)) => if members_well_formed(inner, PROPS_DEPTH as nat) {
            Some(inner)
        } else {
            None
        },
        Some(None) => Some(Seq::empty()),
        None => None,
    }
}

/// Reads the extension payloads under `key`.
pub fn get_payloads(ms: &Vec<Member>, key: &[u8]) -> (r: Option<Vec<Member>>)
    ensures
        match r {
            Some(p) => payloads(members_view(ms@), key@) == Some(members_view(p@)),
            None => payloads(members_view(ms@), key@) is None,
        },
{
    match get_object(ms, key) {
        Some(Some(inner)) => {
            if check_members(inner, PROPS_DEPTH) {
                Some(duplicate_members(inner))
            } else {
                None
            }
        },
        Some(None) => {
            let p: Vec<Member> = Vec::new();
            assert(members_view(p@) =~= Seq::<MemberView>::empty());
            Some(p)
        },
        None => None,
    }
}

/// The attributes that the members of an `attributes` object denote, if
/// every value is an index.
pub open spec fn attributes_of(inner: Seq<MemberView>) -> Option<Seq<AttributeView>> {
    if forall|i: int| 0 <= i < inner.len() ==> index_of((#[trigger] inner[i]).value) is Some {
        Some(
            Seq::new(
                inner.len(),
                |i: int| AttributeView { name: inner[i].key, accessor: index_of(inner[i].value).unwrap() },
            ),
        )
    } else {
        None
    }
}

/// The members of the `attributes` object of a list of attributes.
pub open spec fn attribute_members(list: Seq<AttributeView>) -> Seq<MemberView> {
    Seq::new(list.len(), |i: int| MemberView { key: list[i].name, value: index_json(list[i].accessor) })
}

/// The attributes under `key`: none where the member is absent.
pub open spec fn attributes(ms: Seq<MemberView>, key: Seq<u8>) -> Option<Seq<AttributeView>> {
    match opt_object(ms, key) {
        Some(Some(inner)) => attributes_of(inner),
        Some(None) => Some(Seq::empty()),
        None => None,
    }
}

/// Reads the attributes under `key`.
pub fn get_attributes(ms: &Vec<Member>, key: &[u8]) -> (r: Option<Vec<Attribute>>)
    ensures
        match r {
            Some(list) => attributes(members_view(ms@), key@) == Some(views(list@)),
            None => attributes(members_view(ms@), key@) is None,
        },
{
    let inner = match get_object(ms, key) {
        Some(Some(inner)) => inner,
        Some(None) => {
            let out: Vec<Attribute> = Vec::new();
            assert(views(out@) =~= Seq::<AttributeView>::empty());
            return Some(out);
        },
        None => {
            return None;
        },
    };
    let ghost iv = members_view(inner@);
    let mut out: Vec<Attribute> = Vec::new();
    let mut i: usize = 0;
    while i < inner.len()
        invariant
            i <= inner.len(),
            iv == members_view(inner@),
            opt_object(members_view(ms@), key@) == Some(Some(iv)),
            out.len() == i,
            forall|j: int|
                0 <= j < i ==> index_of((#[trigger] iv[j]).value) == Some(out@[j].accessor) && iv[j].key
                    == out@[j].name@,
        decreases inner.len() - i,
    {
        assert(iv[i as int] == inner@[i as int]@);
        match read_index(&inner[i].value) {
            Some(n) => {
                out.push(Attribute { name: clone_bytes(&inner[i].key), accessor: n });
            },
            None => {
                assert(iv.len() == inner.len());
                assert(index_of(iv[i as int].value) is None);
                return None;
            },
        }
        i += 1;
    }
    assert(attributes_of(iv).unwrap() =~= views(out@));
    Some(out)
}

/// Writes the members of an `attributes` object.
pub fn write_attributes(list: &Vec<Attribute>) -> (r: Vec<Member>)
    ensures
        members_view(r@) == attribute_members(views(list@)),
{
    let mut out: Vec<Member> = Vec::new();
    let mut i: usize = 0;
    while i < list.len()
        invariant
            i <= list.len(),
            out.len() == i,
            forall|j: int|
                0 <= j < i ==> (#[trigger] out@[j])@ == (MemberView {
                    key: list@[j].name@,
                    value: index_json(list@[j].accessor),
                }),
        decreases list.len() - i,
    {
        out.push(Member { key: clone_bytes(&list[i].name), value: index_value(list[i].accessor) });
        i += 1;
    }
    assert(members_view(out@) =~= attribute_members(views(list@)));
    out
}

/// Attributes are read back from the members they are written as.
pub proof fn lemma_attributes_round_trip(list: Seq<AttributeView>)
    ensures
        attributes_of(attribute_members(list)) == Some(list),
        forall|d: nat| members_well_formed(attribute_members(list), d),
{
    let inner = attribute_members(list);
    assert forall|i: int| 0 <= i < inner.len() implies index_of((#[trigger] inner[i]).value) == Some(
        list[i].accessor,
    ) by {
        lemma_index_json(list[i].accessor);
    }
    assert(attributes_of(inner).unwrap() =~= list);
    assert forall|d: nat| members_well_formed(attribute_members(list), d) by {
        assert forall|i: int| 0 <= i < inner.len() implies well_formed((#[trigger] inner[i]).value, d) by {
            lemma_index_json(list[i].accessor);
        }
    }
}

/// The members of the JSON object of a material's reference to a texture that
/// the codec understands.
pub open spec fn texture_ref_typed(x: TextureRefView) -> Seq<MemberView> {
    let ms = Seq::<MemberView>::empty();
    let ms = with_index(ms, INDEX@, Some(x.texture));
    ms
}

/// The members of the JSON object of a material's reference to a texture:
/// what the codec understands, then what is carried along.
pub open spec fn texture_ref_members(x: TextureRefView) -> Seq<MemberView> {
    texture_ref_typed(x) + x.props
}

/// The value of a material's reference to a texture that the members `ms`
/// denote.
pub open spec fn texture_ref_of(ms: Seq<MemberView>) -> Option<TextureRefView> {
    match req_index(ms, INDEX@) {
        Some(texture) => if members_well_formed(retain(ms, Kind::TextureRef), PROPS_DEPTH as nat) {
            Some(TextureRefView { texture, props: retain(ms, Kind::TextureRef) })
        } else {
            None
        },
        None => None,
    }
}

/// The value of a material's reference to a texture that the JSON value `v`
/// denotes.
pub open spec fn texture_ref_of_json(v: JsonView) -> Option<TextureRefView> {
    match v {
        JsonView::Object(ms) => texture_ref_of(ms),
        _ => None,
    }
}

/// The JSON object of an optional entity.
pub open spec fn texture_ref_json(x: Option<TextureRefView>) -> Option<JsonView> {
    match x {
        Some(y) => Some(JsonView::Object(texture_ref_members(y))),
        None => None,
    }
}

/// The entity under `key`: none where the member is absent.
pub open spec fn opt_texture_ref(ms: Seq<MemberView>, key: Seq<u8>) -> Option<Option<TextureRefView>> {
    match find(ms, key) {
        None => Some(None),
        Some(v) => match texture_ref_of_json(v) {
            Some(y) => Some(Some(y)),
            None => None,
        },
    }
}

/// Reads a material's reference to a texture from the members of its JSON
/// object.
pub fn read_texture_ref(ms: &Vec<Member>) -> (r: Option<TextureRef>)
    ensures
        match r {
            Some(x) => texture_ref_of(members_view(ms@)) == Some(x@) && x@.ok(),
            None => texture_ref_of(members_view(ms@)) is None,
        },
{
    let texture = match get_req_index(ms, &INDEX) {
        Some(v) => v,
        None => {
            return None;
        },
    };
    let props = keep(ms, Kind::TextureRef);
    if !check_members(&props, PROPS_DEPTH) {
        return None;
    }
    proof {
        lemma_retain_sound(members_view(ms@), Kind::TextureRef, PROPS_DEPTH as nat);
    }
    Some(TextureRef { texture, props })
}

/// Reads the optional entity under `key`.
pub fn get_texture_ref(ms: &Vec<Member>, key: &[u8]) -> (r: Option<Option<TextureRef>>)
    ensures
        match r {
            Some(x) => opt_texture_ref(members_view(ms@), key@) == Some(opt_view(x)) && (x matches Some(y) ==> y@.ok()),
            None => opt_texture_ref(members_view(ms@), key@) is None,
        },
{
    match lookup(ms, key) {
        None => Some(None),
        Some(Json::Object(inner)) => {
            proof {
                lemma_object_view(*inner);
            }
            match read_texture_ref(inner) {
                Some(y) => Some(Some(y)),
                None => None,
            }
        },
        Some(_) => None,
    }
}

/// Writes the members of the JSON object of a material's reference to a
/// texture.
pub fn write_texture_ref(x: &TextureRef) -> (r: Vec<Member>)
    ensures
        members_view(r@) == texture_ref_members(x@),
{
    let mut ms: Vec<Member> = Vec::new();
    assert(members_view(ms@) =~= Seq::<MemberView>::empty());
    put_index(&mut ms, &INDEX, Some(x.texture));
    put_all(&mut ms, &x.props);
    ms
}

/// A material's reference to a texture is read back from the members it is
/// written as, and those are well formed.
pub proof fn lemma_texture_ref_round_trip(x: TextureRefView)
    requires
        x.ok(),
    ensures
        texture_ref_of(texture_ref_members(x)) == Some(x),
        well_formed(JsonView::Object(texture_ref_members(x)), (PROPS_DEPTH + 1) as nat),
    decreases x,
{
    broadcast use group_members;

    lemma_names_texture_ref();
    lemma_index_json(x.texture);
    lemma_find_absent(x.props, Kind::TextureRef, INDEX@);
    let typed = texture_ref_typed(x);
    lemma_members_deeper(x.props, PROPS_DEPTH as nat, (PROPS_DEPTH + 0) as nat);
    assert(members_well_formed(typed, (PROPS_DEPTH + 0) as nat));
    lemma_object_well_formed(typed + x.props, (PROPS_DEPTH + 0) as nat);
    assert(retain(typed, Kind::TextureRef) =~= Seq::<MemberView>::empty());
    lemma_retain_all(x.props, Kind::TextureRef);
    assert(retain(typed + x.props, Kind::TextureRef) =~= x.props);
}

/// What is read as a material's reference to a texture can be written and
/// read back.
pub proof fn lemma_texture_ref_of_ok(ms: Seq<MemberView>)
    requires
        texture_ref_of(ms) is Some,
    ensures
        texture_ref_of(ms)->Some_0.ok(),
{
    lemma_retain_sound(ms, Kind::TextureRef, PROPS_DEPTH as nat);
}

/// The members of the JSON object of the `pbrMetallicRoughness` object of a
/// material that the codec understands.
pub open spec fn pbr_typed(x: PbrView) -> Seq<MemberView> {
    let ms = Seq::<MemberView>::empty();
    let ms = with_member(ms, BASE_COLOR_TEXTURE@, texture_ref_json(x.base_color));
    let ms = with_member(ms, METALLIC_ROUGHNESS_TEXTURE@, texture_ref_json(x.metallic_roughness));
    ms
}

/// The members of the JSON object of the `pbrMetallicRoughness` object of a
/// material: what the codec understands, then what is carried along.
pub open spec fn pbr_members(x: PbrView) -> Seq<MemberView> {
    pbr_typed(x) + x.props
}

/// The value of the `pbrMetallicRoughness` object of a material that the
/// members `ms` denote.
pub open spec fn pbr_of(ms: Seq<MemberView>) -> Option<PbrView> {
    match (opt_texture_ref(ms, BASE_COLOR_TEXTURE@), opt_texture_ref(ms, METALLIC_ROUGHNESS_TEXTURE@)) {
        (Some(base_color), Some(metallic_roughness)) => if members_well_formed(retain(ms, Kind::Pbr), PROPS_DEPTH as nat) {
            Some(PbrView { base_color, metallic_roughness, props: retain(ms, Kind::Pbr) })
        } else {
            None
        },
        _ => None,
    }
}

/// The value of the `pbrMetallicRoughness` object of a material that the JSON
/// value `v` denotes.
pub open spec fn pbr_of_json(v: JsonView) -> Option<PbrView> {
    match v {
        JsonView::Object(ms) => pbr_of(ms),
        _ => None,
    }
}

/// The JSON object of an optional entity.
pub open spec fn pbr_json(x: Option<PbrView>) -> Option<JsonView> {
    match x {
        Some(y) => Some(JsonView::Object(pbr_members(y))),
        None => None,
    }
}

/// The entity under `key`: none where the member is absent.
pub open spec fn opt_pbr(ms: Seq<MemberView>, key: Seq<u8>) -> Option<Option<PbrView>> {
    match find(ms, key) {
        None => Some(None),
        Some(v) => match pbr_of_json(v) {
            Some(y) => Some(Some(y)),
            None => None,
        },
    }
}

/// Reads the `pbrMetallicRoughness` object of a material from the members of
/// its JSON object.
pub fn read_pbr(ms: &Vec<Member>) -> (r: Option<Pbr>)
    ensures
        match r {
            Some(x) => pbr_of(members_view(ms@)) == Some(x@) && x@.ok(),
            None => pbr_of(members_view(ms@)) is None,
        },
{
    let base_color = match get_texture_ref(ms, &BASE_COLOR_TEXTURE) {
        Some(v) => v,
        None => {
            return None;
        },
    };
    let metallic_roughness = match get_texture_ref(ms, &METALLIC_ROUGHNESS_TEXTURE) {
        Some(v) => v,
        None => {
            return None;
        },
    };
    let props = keep(ms, Kind::Pbr);
    if !check_members(&props, PROPS_DEPTH) {
        return None;
    }
    proof {
        lemma_retain_sound(members_view(ms@), Kind::Pbr, PROPS_DEPTH as nat);
    }
    Some(Pbr { base_color, metallic_roughness, props })
}

/// Reads the optional entity under `key`.
pub fn get_pbr(ms: &Vec<Member>, key: &[u8]) -> (r: Option<Option<Pbr>>)
    ensures
        match r {
            Some(x) => opt_pbr(members_view(ms@), key@) == Some(opt_view(x)) && (x matches Some(y) ==> y@.ok()),
            None => opt_pbr(members_view(ms@), key@) is None,
        },
{
    match lookup(ms, key) {
        None => Some(None),
        Some(Json::Object(inner)) => {
            proof {
                lemma_object_view(*inner);
            }
            match read_pbr(inner) {
                Some(y) => Some(Some(y)),
                None => None,
            }
        },
        Some(_) => None,
    }
}

/// Writes the members of the JSON object of the `pbrMetallicRoughness` object
/// of a material.
pub fn write_pbr(x: &Pbr) -> (r: Vec<Member>)
    ensures
        members_view(r@) == pbr_members(x@),
{
    let mut ms: Vec<Member> = Vec::new();
    assert(members_view(ms@) =~= Seq::<MemberView>::empty());
    match &x.base_color {
        Some(y) => {
            let inner = write_texture_ref(y);
            proof {
                lemma_object_view(inner);
            }
            put(&mut ms, &BASE_COLOR_TEXTURE, Json::Object(inner));
        },
        None => {},
    }
    match &x.metallic_roughness {
        Some(y) => {
            let inner = write_texture_ref(y);
            proof {
                lemma_object_view(inner);
            }
            put(&mut ms, &METALLIC_ROUGHNESS_TEXTURE, Json::Object(inner));
        },
        None => {},
    }
    put_all(&mut ms, &x.props);
    ms
}

/// The `pbrMetallicRoughness` object of a material is read back from the
/// members it is written as, and those are well formed.
pub proof fn lemma_pbr_round_trip(x: PbrView)
    requires
        x.ok(),
    ensures
        pbr_of(pbr_members(x)) == Some(x),
        well_formed(JsonView::Object(pbr_members(x)), (PROPS_DEPTH + 2) as nat),
    decreases x,
{
    broadcast use group_members;

    lemma_names_pbr();
    if let Some(y) = x.base_color {
        lemma_texture_ref_round_trip(y);
        lemma_well_formed_deeper(
            JsonView::Object(texture_ref_members(y)),
            (PROPS_DEPTH + 1) as nat,
            (PROPS_DEPTH + 1) as nat,
        );
    }
    lemma_find_absent(x.props, Kind::Pbr, BASE_COLOR_TEXTURE@);
    if let Some(y) = x.metallic_roughness {
        lemma_texture_ref_round_trip(y);
        lemma_well_formed_deeper(
            JsonView::Object(texture_ref_members(y)),
            (PROPS_DEPTH + 1) as nat,
            (PROPS_DEPTH + 1) as nat,
        );
    }
    lemma_find_absent(x.props, Kind::Pbr, METALLIC_ROUGHNESS_TEXTURE@);
    let typed = pbr_typed(x);
    lemma_members_deeper(x.props, PROPS_DEPTH as nat, (PROPS_DEPTH + 1) as nat);
    assert(members_well_formed(typed, (PROPS_DEPTH + 1) as nat));
    lemma_object_well_formed(typed + x.props, (PROPS_DEPTH + 1) as nat);
    assert(retain(typed, Kind::Pbr) =~= Seq::<MemberView>::empty());
    lemma_retain_all(x.props, Kind::Pbr);
    assert(retain(typed + x.props, Kind::Pbr) =~= x.props);
}

/// What is read as the `pbrMetallicRoughness` object of a material can be
/// written and read back.
pub proof fn lemma_pbr_of_ok(ms: Seq<MemberView>)
    requires
        pbr_of(ms) is Some,
    ensures
        pbr_of(ms)->Some_0.ok(),
{
    lemma_retain_sound(ms, Kind::Pbr, PROPS_DEPTH as nat);
    match find(ms, BASE_COLOR_TEXTURE@) {
        Some(JsonView::Object(inner)) => {
            if texture_ref_of(inner) is Some {
                lemma_texture_ref_of_ok(inner);
            }
        },
        _ => {},
    }
    match find(ms, METALLIC_ROUGHNESS_TEXTURE@) {
        Some(JsonView::Object(inner)) => {
            if texture_ref_of(inner) is Some {
                lemma_texture_ref_of_ok(inner);
            }
        },
        _ => {},
    }
}

/// The members of the JSON object of a material that the codec understands.
#[verifier::opaque]
pub open spec fn material_typed(x: MaterialView) -> Seq<MemberView> {
    let ms = Seq::<MemberView>::empty();
    let ms = with_member(ms, PBR_METALLIC_ROUGHNESS@, pbr_json(x.pbr));
    let ms = with_member(ms, NORMAL_TEXTURE@, texture_ref_json(x.normal));
    let ms = with_member(ms, OCCLUSION_TEXTURE@, texture_ref_json(x.occlusion));
    let ms = with_member(ms, EMISSIVE_TEXTURE@, texture_ref_json(x.emissive));
    let ms = with_object(ms, EXTENSIONS@, x.extensions);
    ms
}

/// The members of the JSON object of a material: what the codec understands,
/// then what is carried along.
pub open spec fn material_members(x: MaterialView) -> Seq<MemberView> {
    material_typed(x) + x.props
}

/// The value of a material that the members `ms` denote.
#[verifier::opaque]
pub open spec fn material_of(ms: Seq<MemberView>) -> Option<MaterialView> {
    match (opt_pbr(ms, PBR_METALLIC_ROUGHNESS@), opt_texture_ref(ms, NORMAL_TEXTURE@), opt_texture_ref(ms, OCCLUSION_TEXTURE@), opt_texture_ref(ms, EMISSIVE_TEXTURE@), payloads(ms, EXTENSIONS@)) {
        (Some(pbr), Some(normal), Some(occlusion), Some(emissive), Some(extensions)) => if members_well_formed(retain(ms, Kind::Material), PROPS_DEPTH as nat) {
            Some(MaterialView { pbr, normal, occlusion, emissive, extensions, props: retain(ms, Kind::Material) })
        } else {
            None
        },
        _ => None,
    }
}

/// The value of a material that the JSON value `v` denotes.
pub open spec fn material_of_json(v: JsonView) -> Option<MaterialView> {
    match v {
        JsonView::Object(ms) => material_of(ms),
        _ => None,
    }
}

/// The values that the items denote, if every one of them denotes one.
pub open spec fn materials_of(items: Seq<JsonView>) -> Option<Seq<MaterialView>> {
    if forall|i: int| 0 <= i < items.len() ==> material_of_json(#[trigger] items[i]) is Some {
        Some(Seq::new(items.len(), |i: int| material_of_json(items[i]).unwrap()))
    } else {
        None
    }
}

/// The JSON objects of a list of entities.
pub open spec fn materials_json(list: Seq<MaterialView>) -> Seq<JsonView> {
    Seq::new(list.len(), |i: int| JsonView::Object(material_members(list[i])))
}

/// The entities under `key`: none where the member is absent.
pub open spec fn materials_under(ms: Seq<MemberView>, key: Seq<u8>) -> Option<Seq<MaterialView>> {
    match array(ms, key) {
        Some(items) => materials_of(items),
        None => None,
    }
}

/// Reads a material from the members of its JSON object.
pub fn read_material(ms: &Vec<Member>) -> (r: Option<Material>)
    ensures
        match r {
            Some(x) => material_of(members_view(ms@)) == Some(x@) && x@.ok(),
            None => material_of(members_view(ms@)) is None,
        },
{
    proof {
        reveal(material_of);
        reveal(MaterialView::ok);
    }
    let pbr = match get_pbr(ms, &PBR_METALLIC_ROUGHNESS) {
        Some(v) => v,
        None => {
            return None;
        },
    };
    let normal = match get_texture_ref(ms, &NORMAL_TEXTURE) {
        Some(v) => v,
        None => {
            return None;
        },
    };
    let occlusion = match get_texture_ref(ms, &OCCLUSION_TEXTURE) {
        Some(v) => v,
        None => {
            return None;
        },
    };
    let emissive = match get_texture_ref(ms, &EMISSIVE_TEXTURE) {
        Some(v) => v,
        None => {
            return None;
        },
    };
    let extensions = match get_payloads(ms, &EXTENSIONS) {
        Some(v) => v,
        None => {
            return None;
        },
    };
    let props = keep(ms, Kind::Material);
    if !check_members(&props, PROPS_DEPTH) {
        return None;
    }
    proof {
        lemma_retain_sound(members_view(ms@), Kind::Material, PROPS_DEPTH as nat);
    }
    Some(Material { pbr, normal, occlusion, emissive, extensions, props })
}

/// Reads a list of entities from the items of a JSON array.
pub fn read_materials(items: &Vec<Json>) -> (r: Option<Vec<Material>>)
    ensures
        match r {
            Some(list) => materials_of(items_view(items@)) == Some(views(list@)) && forall|i: int|
                0 <= i < list.len() ==> (#[trigger] views(list@)[i]).ok(),
            None => materials_of(items_view(items@)) is None,
        },
{
    let ghost iv = items_view(items@);
    let mut out: Vec<Material> = Vec::new();
    let mut i: usize = 0;
    while i < items.len()
        invariant
            i <= items.len(),
            iv == items_view(items@),
            out.len() == i,
            forall|j: int| 0 <= j < i ==> material_of_json(#[trigger] iv[j]) == Some(out@[j]@),
            forall|j: int| 0 <= j < i ==> (#[trigger] out@[j])@.ok(),
        decreases items.len() - i,
    {
        assert(iv[i as int] == items@[i as int]@);
        let found = match &items[i] {
            Json::Object(ms) => {
                proof {
                    lemma_object_view(*ms);
                }
                read_material(ms)
            },
            _ => None,
        };
        match found {
            Some(x) => {
                out.push(x);
            },
            None => {
                assert(iv.len() == items.len());
                assert(material_of_json(iv[i as int]) is None);
                return None;
            },
        }
        i += 1;
    }
    assert(materials_of(iv).unwrap() =~= views(out@));
    Some(out)
}

/// Reads the entities under `key`.
pub fn get_materials(ms: &Vec<Member>, key: &[u8]) -> (r: Option<Vec<Material>>)
    ensures
        match r {
            Some(list) => materials_under(members_view(ms@), key@) == Some(views(list@)) && forall|i: int|
                0 <= i < list.len() ==> (#[trigger] views(list@)[i]).ok(),
            None => materials_under(members_view(ms@), key@) is None,
        },
{
    match get_array(ms, key) {
        Some(Some(items)) => read_materials(items),
        Some(None) => {
            let out: Vec<Material> = Vec::new();
            assert(materials_of(Seq::<JsonView>::empty()).unwrap() =~= views(out@));
            Some(out)
        },
        None => None,
    }
}

/// Writes the members of the JSON object of a material.
pub fn write_material(x: &Material) -> (r: Vec<Member>)
    ensures
        members_view(r@) == material_members(x@),
{
    let mut ms: Vec<Member> = Vec::new();
    assert(members_view(ms@) =~= Seq::<MemberView>::empty());
    proof {
        reveal(material_typed);
    }
    match &x.pbr {
        Some(y) => {
            let inner = write_pbr(y);
            proof {
                lemma_object_view(inner);
            }
            put(&mut ms, &PBR_METALLIC_ROUGHNESS, Json::Object(inner));
        },
        None => {},
    }
    match &x.normal {
        Some(y) => {
            let inner = write_texture_ref(y);
            proof {
                lemma_object_view(inner);
            }
            put(&mut ms, &NORMAL_TEXTURE, Json::Object(inner));
        },
        None => {},
    }
    match &x.occlusion {
        Some(y) => {
            let inner = write_texture_ref(y);
            proof {
                lemma_object_view(inner);
            }
            put(&mut ms, &OCCLUSION_TEXTURE, Json::Object(inner));
        },
        None => {},
    }
    match &x.emissive {
        Some(y) => {
            let inner = write_texture_ref(y);
            proof {
                lemma_object_view(inner);
            }
            put(&mut ms, &EMISSIVE_TEXTURE, Json::Object(inner));
        },
        None => {},
    }
    put_object(&mut ms, &EXTENSIONS, duplicate_members(&x.extensions));
    put_all(&mut ms, &x.props);
    ms
}

/// Writes the JSON objects of a list of entities.
pub fn write_materials(list: &Vec<Material>) -> (r: Vec<Json>)
    ensures
        items_view(r@) == materials_json(views(list@)),
{
    let mut out: Vec<Json> = Vec::new();
    let mut i: usize = 0;
    while i < list.len()
        invariant
            i <= list.len(),
            out.len() == i,
            forall|j: int| 0 <= j < i ==> (#[trigger] out@[j])@ == JsonView::Object(material_members(list@[j]@)),
        decreases list.len() - i,
    {
        let ms = write_material(&list[i]);
        proof {
            lemma_object_view(ms);
        }
        out.push(Json::Object(ms));
        i += 1;
    }
    assert(items_view(out@) =~= materials_json(views(list@)));
    out
}

/// What stands under `pbrMetallicRoughness` among the members the codec
/// writes for a material.
proof fn lemma_material_find_pbr(x: MaterialView)
    ensures
        find(material_typed(x), PBR_METALLIC_ROUGHNESS@) == pbr_json(x.pbr),
{
    broadcast use lemma_find_with_member;

    reveal(material_typed);
    lemma_names_material();
}

/// What the codec writes under `pbrMetallicRoughness` for a material is well
/// formed and is read back.
proof fn lemma_material_value_pbr(x: MaterialView)
    requires
        x.ok(),
    ensures
        (pbr_json(x.pbr)) matches Some(v) ==> well_formed(v, (PROPS_DEPTH + 2) as nat),
        forall|ms: Seq<MemberView>|
            find(ms, PBR_METALLIC_ROUGHNESS@) == (pbr_json(x.pbr)) ==> #[trigger] opt_pbr(ms, PBR_METALLIC_ROUGHNESS@) == Some(x.pbr),
{
    reveal(MaterialView::ok);
    if let Some(y) = x.pbr {
        lemma_pbr_round_trip(y);
        lemma_well_formed_deeper(
            JsonView::Object(pbr_members(y)),
            (PROPS_DEPTH + 2) as nat,
            (PROPS_DEPTH + 2) as nat,
        );
    }
}

/// What stands under `normalTexture` among the members the codec writes for
/// a material.
proof fn lemma_material_find_normal(x: MaterialView)
    ensures
        find(material_typed(x), NORMAL_TEXTURE@) == texture_ref_json(x.normal),
{
    broadcast use lemma_find_with_member;

    reveal(material_typed);
    lemma_names_material();
}

/// What the codec writes under `normalTexture` for a material is well formed
/// and is read back.
proof fn lemma_material_value_normal(x: MaterialView)
    requires
        x.ok(),
    ensures
        (texture_ref_json(x.normal)) matches Some(v) ==> well_formed(v, (PROPS_DEPTH + 2) as nat),
        forall|ms: Seq<MemberView>|
            find(ms, NORMAL_TEXTURE@) == (texture_ref_json(x.normal)) ==> #[trigger] opt_texture_ref(ms, NORMAL_TEXTURE@) == Some(x.normal),
{
    reveal(MaterialView::ok);
    if let Some(y) = x.normal {
        lemma_texture_ref_round_trip(y);
        lemma_well_formed_deeper(
            JsonView::Object(texture_ref_members(y)),
            (PROPS_DEPTH + 1) as nat,
            (PROPS_DEPTH + 2) as nat,
        );
    }
}

/// What stands under `occlusionTexture` among the members the codec writes for
/// a material.
proof fn lemma_material_find_occlusion(x: MaterialView)
    ensures
        find(material_typed(x), OCCLUSION_TEXTURE@) == texture_ref_json(x.occlusion),
{
    broadcast use lemma_find_with_member;

    reveal(material_typed);
    lemma_names_material();
}

/// What the codec writes under `occlusionTexture` for a material is well
/// formed and is read back.
proof fn lemma_material_value_occlusion(x: MaterialView)
    requires
        x.ok(),
    ensures
        (texture_ref_json(x.occlusion)) matches Some(v) ==> well_formed(v, (PROPS_DEPTH + 2) as nat),
        forall|ms: Seq<MemberView>|
            find(ms, OCCLUSION_TEXTURE@) == (texture_ref_json(x.occlusion)) ==> #[trigger] opt_texture_ref(ms, OCCLUSION_TEXTURE@) == Some(x.occlusion),
{
    reveal(MaterialView::ok);
    if let Some(y) = x.occlusion {
        lemma_texture_ref_round_trip(y);
        lemma_well_formed_deeper(
            JsonView::Object(texture_ref_members(y)),
            (PROPS_DEPTH + 1) as nat,
            (PROPS_DEPTH + 2) as nat,
        );
    }
}

/// What stands under `emissiveTexture` among the members the codec writes for
/// a material.
proof fn lemma_material_find_emissive(x: MaterialView)
    ensures
        find(material_typed(x), EMISSIVE_TEXTURE@) == texture_ref_json(x.emissive),
{
    broadcast use lemma_find_with_member;

    reveal(material_typed);
    lemma_names_material();
}

/// What the codec writes under `emissiveTexture` for a material is well
/// formed and is read back.
proof fn lemma_material_value_emissive(x: MaterialView)
    requires
        x.ok(),
    ensures
        (texture_ref_json(x.emissive)) matches Some(v) ==> well_formed(v, (PROPS_DEPTH + 2) as nat),
        forall|ms: Seq<MemberView>|
            find(ms, EMISSIVE_TEXTURE@) == (texture_ref_json(x.emissive)) ==> #[trigger] opt_texture_ref(ms, EMISSIVE_TEXTURE@) == Some(x.emissive),
{
    reveal(MaterialView::ok);
    if let Some(y) = x.emissive {
        lemma_texture_ref_round_trip(y);
        lemma_well_formed_deeper(
            JsonView::Object(texture_ref_members(y)),
            (PROPS_DEPTH + 1) as nat,
            (PROPS_DEPTH + 2) as nat,
        );
    }
}

/// What stands under `extensions` among the members the codec writes for
/// a material.
proof fn lemma_material_find_extensions(x: MaterialView)
    ensures
        find(material_typed(x), EXTENSIONS@) == if x.extensions.len() == 0 {
        None
    } else {
        Some(JsonView::Object(x.extensions))
    },
{
    broadcast use lemma_find_with_member;

    reveal(material_typed);
    lemma_names_material();
}

/// What the codec writes under `extensions` for a material is well formed and
/// is read back.
proof fn lemma_material_value_extensions(x: MaterialView)
    requires
        x.ok(),
    ensures
        (if x.extensions.len() == 0 {
                None
            } else {
                Some(JsonView::Object(x.extensions))
            }) matches Some(v) ==> well_formed(v, (PROPS_DEPTH + 2) as nat),
        forall|ms: Seq<MemberView>|
            find(ms, EXTENSIONS@) == (if x.extensions.len() == 0 {
                None
            } else {
                Some(JsonView::Object(x.extensions))
            }) ==> #[trigger] payloads(ms, EXTENSIONS@) == Some(x.extensions),
{
    reveal(MaterialView::ok);
    lemma_object_well_formed(x.extensions, PROPS_DEPTH as nat);
    lemma_well_formed_deeper(
        JsonView::Object(x.extensions),
        (PROPS_DEPTH + 1) as nat,
        (PROPS_DEPTH + 2) as nat,
    );
    if x.extensions.len() == 0 {
        assert(x.extensions =~= Seq::<MemberView>::empty());
    }
}

/// None of the members the codec writes for a material is carried along.
#[verifier::rlimit(50)]
proof fn lemma_material_retain(x: MaterialView)
    ensures
        retain(material_typed(x), Kind::Material) == Seq::<MemberView>::empty(),
{
    reveal(material_typed);
    lemma_names_material();
    let t0 = Seq::<MemberView>::empty();
    assert(retain(t0, Kind::Material) =~= Seq::<MemberView>::empty());
    lemma_retain_with_member(
        t0,
        PBR_METALLIC_ROUGHNESS@,
        pbr_json(x.pbr),
        Kind::Material,
    );
    let t1 = with_member(t0, PBR_METALLIC_ROUGHNESS@, pbr_json(x.pbr));
    assert(retain(t1, Kind::Material) == Seq::<MemberView>::empty());
    lemma_retain_with_member(
        t1,
        NORMAL_TEXTURE@,
        texture_ref_json(x.normal),
        Kind::Material,
    );
    let t2 = with_member(t1, NORMAL_TEXTURE@, texture_ref_json(x.normal));
    assert(retain(t2, Kind::Material) == Seq::<MemberView>::empty());
    lemma_retain_with_member(
        t2,
        OCCLUSION_TEXTURE@,
        texture_ref_json(x.occlusion),
        Kind::Material,
    );
    let t3 = with_member(t2, OCCLUSION_TEXTURE@, texture_ref_json(x.occlusion));
    assert(retain(t3, Kind::Material) == Seq::<MemberView>::empty());
    lemma_retain_with_member(
        t3,
        EMISSIVE_TEXTURE@,
        texture_ref_json(x.emissive),
        Kind::Material,
    );
    let t4 = with_member(t3, EMISSIVE_TEXTURE@, texture_ref_json(x.emissive));
    assert(retain(t4, Kind::Material) == Seq::<MemberView>::empty());
    lemma_retain_with_member(
        t4,
        EXTENSIONS@,
        if x.extensions.len() == 0 {
            None
        } else {
            Some(JsonView::Object(x.extensions))
        },
        Kind::Material,
    );
    let t5 = with_object(t4, EXTENSIONS@, x.extensions);
    assert(retain(t5, Kind::Material) == Seq::<MemberView>::empty());
}

/// The members the codec writes for a material are well formed.
proof fn lemma_material_well_formed(x: MaterialView)
    requires
        x.ok(),
    ensures
        members_well_formed(material_typed(x), (PROPS_DEPTH + 2) as nat),
{
    broadcast use lemma_well_formed_with_member;

    reveal(material_typed);
    lemma_material_value_pbr(x);
    lemma_material_value_normal(x);
    lemma_material_value_occlusion(x);
    lemma_material_value_emissive(x);
    lemma_material_value_extensions(x);
}

/// A material is read back from the members it is written as, and those are
/// well formed.
#[verifier::rlimit(50)]
pub proof fn lemma_material_round_trip(x: MaterialView)
    requires
        x.ok(),
    ensures
        material_of(material_members(x)) == Some(x),
        well_formed(JsonView::Object(material_members(x)), (PROPS_DEPTH + 3) as nat),
{
    reveal(MaterialView::ok);
    reveal(material_of);
    lemma_material_retain(x);
    lemma_material_well_formed(x);
    let typed = material_typed(x);
    lemma_material_find_pbr(x);
    lemma_material_value_pbr(x);
    lemma_find_concat(typed, x.props, PBR_METALLIC_ROUGHNESS@);
    lemma_find_absent(x.props, Kind::Material, PBR_METALLIC_ROUGHNESS@);
    lemma_material_find_normal(x);
    lemma_material_value_normal(x);
    lemma_find_concat(typed, x.props, NORMAL_TEXTURE@);
    lemma_find_absent(x.props, Kind::Material, NORMAL_TEXTURE@);
    lemma_material_find_occlusion(x);
    lemma_material_value_occlusion(x);
    lemma_find_concat(typed, x.props, OCCLUSION_TEXTURE@);
    lemma_find_absent(x.props, Kind::Material, OCCLUSION_TEXTURE@);
    lemma_material_find_emissive(x);
    lemma_material_value_emissive(x);
    lemma_find_concat(typed, x.props, EMISSIVE_TEXTURE@);
    lemma_find_absent(x.props, Kind::Material, EMISSIVE_TEXTURE@);
    lemma_material_find_extensions(x);
    lemma_material_value_extensions(x);
    lemma_find_concat(typed, x.props, EXTENSIONS@);
    lemma_find_absent(x.props, Kind::Material, EXTENSIONS@);
    lemma_names_material();
    lemma_members_deeper(x.props, PROPS_DEPTH as nat, (PROPS_DEPTH + 2) as nat);
    lemma_well_formed_concat(typed, x.props, (PROPS_DEPTH + 2) as nat);
    lemma_object_well_formed(typed + x.props, (PROPS_DEPTH + 2) as nat);
    lemma_retain_concat(typed, x.props, Kind::Material);
    lemma_retain_all(x.props, Kind::Material);
    assert(retain(typed + x.props, Kind::Material) =~= x.props);
}

/// What is read as a material can be written and read back.
pub proof fn lemma_material_of_ok(ms: Seq<MemberView>)
    requires
        material_of(ms) is Some,
    ensures
        material_of(ms)->Some_0.ok(),
{
    reveal(material_of);
    reveal(MaterialView::ok);
    lemma_retain_sound(ms, Kind::Material, PROPS_DEPTH as nat);
    match find(ms, PBR_METALLIC_ROUGHNESS@) {
        Some(JsonView::Object(inner)) => {
            if pbr_of(inner) is Some {
                lemma_pbr_of_ok(inner);
            }
        },
        _ => {},
    }
    match find(ms, NORMAL_TEXTURE@) {
        Some(JsonView::Object(inner)) => {
            if texture_ref_of(inner) is Some {
                lemma_texture_ref_of_ok(inner);
            }
        },
        _ => {},
    }
    match find(ms, OCCLUSION_TEXTURE@) {
        Some(JsonView::Object(inner)) => {
            if texture_ref_of(inner) is Some {
                lemma_texture_ref_of_ok(inner);
            }
        },
        _ => {},
    }
    match find(ms, EMISSIVE_TEXTURE@) {
        Some(JsonView::Object(inner)) => {
            if texture_ref_of(inner) is Some {
                lemma_texture_ref_of_ok(inner);
            }
        },
        _ => {},
    }
}

/// What is read as a list of entities can be written and read back.
pub proof fn lemma_materials_of_ok(items: Seq<JsonView>)
    requires
        materials_of(items) is Some,
    ensures
        forall|i: int| 0 <= i < materials_of(items)->Some_0.len() ==> (#[trigger] materials_of(items)->Some_0[i]).ok(),
{
    let list = materials_of(items)->Some_0;
    assert forall|i: int| 0 <= i < list.len() implies (#[trigger] list[i]).ok() by {
        assert(material_of_json(items[i]) is Some);
        match items[i] {
            JsonView::Object(inner) => {
                lemma_material_of_ok(inner);
            },
            _ => {},
        }
    }
}

/// A list of entities is read back from the JSON objects it is written
/// as, and those are well formed.
pub proof fn lemma_materials_round_trip(list: Seq<MaterialView>)
    requires
        forall|i: int| 0 <= i < list.len() ==> (#[trigger] list[i]).ok(),
    ensures
        materials_of(materials_json(list)) == Some(list),
        forall|i: int|
            0 <= i < list.len() ==> well_formed(#[trigger] materials_json(list)[i], (PROPS_DEPTH + 3) as nat),
    decreases list,
{
    let items = materials_json(list);
    assert forall|i: int| 0 <= i < items.len() implies material_of_json(#[trigger] items[i]) == Some(list[i])
        && well_formed(items[i], (PROPS_DEPTH + 3) as nat) by {
        lemma_material_round_trip(list[i]);
    }
    assert(materials_of(items).unwrap() =~= list);
}

/// The members of the JSON object of a primitive of a mesh that the codec
/// understands.
pub open spec fn primitive_typed(x: PrimitiveView) -> Seq<MemberView> {
    let ms = Seq::<MemberView>::empty();
    let ms = with_object(ms, ATTRIBUTES@, attribute_members(x.attributes));
    let ms = with_index(ms, INDICES@, x.indices);
    let ms = with_index(ms, MATERIAL@, x.material);
    ms
}

/// The members of the JSON object of a primitive of a mesh: what the codec
/// understands, then what is carried along.
pub open spec fn primitive_members(x: PrimitiveView) -> Seq<MemberView> {
    primitive_typed(x) + x.props
}

/// The value of a primitive of a mesh that the members `ms` denote.
pub open spec fn primitive_of(ms: Seq<MemberView>) -> Option<PrimitiveView> {
    match (attributes(ms, ATTRIBUTES@), opt_index(ms, INDICES@), opt_index(ms, MATERIAL@)) {
        (Some(attributes), Some(indices), Some(material)) => if members_well_formed(retain(ms, Kind::Primitive), PROPS_DEPTH as nat) {
            Some(PrimitiveView { attributes, indices, material, props: retain(ms, Kind::Primitive) })
        } else {
            None
        },
        _ => None,
    }
}

/// The value of a primitive of a mesh that the JSON value `v` denotes.
pub open spec fn primitive_of_json(v: JsonView) -> Option<PrimitiveView> {
    match v {
        JsonView::Object(ms) => primitive_of(ms),
        _ => None,
    }
}

/// The values that the items denote, if every one of them denotes one.
pub open spec fn primitives_of(items: Seq<JsonView>) -> Option<Seq<PrimitiveView>> {
    if forall|i: int| 0 <= i < items.len() ==> primitive_of_json(#[trigger] items[i]) is Some {
        Some(Seq::new(items.len(), |i: int| primitive_of_json(items[i]).unwrap()))
    } else {
        None
    }
}

/// The JSON objects of a list of entities.
pub open spec fn primitives_json(list: Seq<PrimitiveView>) -> Seq<JsonView> {
    Seq::new(list.len(), |i: int| JsonView::Object(primitive_members(list[i])))
}

/// The entities under `key`: none where the member is absent.
pub open spec fn primitives_under(ms: Seq<MemberView>, key: Seq<u8>) -> Option<Seq<PrimitiveView>> {
    match array(ms, key) {
        Some(items) => primitives_of(items),
        None => None,
    }
}

/// Reads a primitive of a mesh from the members of its JSON object.
pub fn read_primitive(ms: &Vec<Member>) -> (r: Option<Primitive>)
    ensures
        match r {
            Some(x) => primitive_of(members_view(ms@)) == Some(x@) && x@.ok(),
            None => primitive_of(members_view(ms@)) is None,
        },
{
    let attributes = match get_attributes(ms, &ATTRIBUTES) {
        Some(v) => v,
        None => {
            return None;
        },
    };
    let indices = match get_index(ms, &INDICES) {
        Some(v) => v,
        None => {
            return None;
        },
    };
    let material = match get_index(ms, &MATERIAL) {
        Some(v) => v,
        None => {
            return None;
        },
    };
    let props = keep(ms, Kind::Primitive);
    if !check_members(&props, PROPS_DEPTH) {
        return None;
    }
    proof {
        lemma_retain_sound(members_view(ms@), Kind::Primitive, PROPS_DEPTH as nat);
    }
    Some(Primitive { attributes, indices, material, props })
}

/// Reads a list of entities from the items of a JSON array.
pub fn read_primitives(items: &Vec<Json>) -> (r: Option<Vec<Primitive>>)
    ensures
        match r {
            Some(list) => primitives_of(items_view(items@)) == Some(views(list@)) && forall|i: int|
                0 <= i < list.len() ==> (#[trigger] views(list@)[i]).ok(),
            None => primitives_of(items_view(items@)) is None,
        },
{
    let ghost iv = items_view(items@);
    let mut out: Vec<Primitive> = Vec::new();
    let mut i: usize = 0;
    while i < items.len()
        invariant
            i <= items.len(),
            iv == items_view(items@),
            out.len() == i,
            forall|j: int| 0 <= j < i ==> primitive_of_json(#[trigger] iv[j]) == Some(out@[j]@),
            forall|j: int| 0 <= j < i ==> (#[trigger] out@[j])@.ok(),
        decreases items.len() - i,
    {
        assert(iv[i as int] == items@[i as int]@);
        let found = match &items[i] {
            Json::Object(ms) => {
                proof {
                    lemma_object_view(*ms);
                }
                read_primitive(ms)
            },
            _ => None,
        };
        match found {
            Some(x) => {
                out.push(x);
            },
            None => {
                assert(iv.len() == items.len());
                assert(primitive_of_json(iv[i as int]) is None);
                return None;
            },
        }
        i += 1;
    }
    assert(primitives_of(iv).unwrap() =~= views(out@));
    Some(out)
}

/// Reads the entities under `key`.
pub fn get_primitives(ms: &Vec<Member>, key: &[u8]) -> (r: Option<Vec<Primitive>>)
    ensures
        match r {
            Some(list) => primitives_under(members_view(ms@), key@) == Some(views(list@)) && forall|i: int|
                0 <= i < list.len() ==> (#[trigger] views(list@)[i]).ok(),
            None => primitives_under(members_view(ms@), key@) is None,
        },
{
    match get_array(ms, key) {
        Some(Some(items)) => read_primitives(items),
        Some(None) => {
            let out: Vec<Primitive> = Vec::new();
            assert(primitives_of(Seq::<JsonView>::empty()).unwrap() =~= views(out@));
            Some(out)
        },
        None => None,
    }
}

/// Writes the members of the JSON object of a primitive of a mesh.
pub fn write_primitive(x: &Primitive) -> (r: Vec<Member>)
    ensures
        members_view(r@) == primitive_members(x@),
{
    let mut ms: Vec<Member> = Vec::new();
    assert(members_view(ms@) =~= Seq::<MemberView>::empty());
    put_object(&mut ms, &ATTRIBUTES, write_attributes(&x.attributes));
    put_index(&mut ms, &INDICES, x.indices);
    put_index(&mut ms, &MATERIAL, x.material);
    put_all(&mut ms, &x.props);
    ms
}

/// Writes the JSON objects of a list of entities.
pub fn write_primitives(list: &Vec<Primitive>) -> (r: Vec<Json>)
    ensures
        items_view(r@) == primitives_json(views(list@)),
{
    let mut out: Vec<Json> = Vec::new();
    let mut i: usize = 0;
    while i < list.len()
        invariant
            i <= list.len(),
            out.len() == i,
            forall|j: int| 0 <= j < i ==> (#[trigger] out@[j])@ == JsonView::Object(primitive_members(list@[j]@)),
        decreases list.len() - i,
    {
        let ms = write_primitive(&list[i]);
        proof {
            lemma_object_view(ms);
        }
        out.push(Json::Object(ms));
        i += 1;
    }
    assert(items_view(out@) =~= primitives_json(views(list@)));
    out
}

/// A primitive of a mesh is read back from the members it is written as, and
/// those are well formed.
pub proof fn lemma_primitive_round_trip(x: PrimitiveView)
    requires
        x.ok(),
    ensures
        primitive_of(primitive_members(x)) == Some(x),
        well_formed(JsonView::Object(primitive_members(x)), (PROPS_DEPTH + 1) as nat),
    decreases x,
{
    broadcast use group_members;

    lemma_names_primitive();
    lemma_attributes_round_trip(x.attributes);
    lemma_object_well_formed(attribute_members(x.attributes), 0);
    lemma_well_formed_deeper(
        JsonView::Object(attribute_members(x.attributes)),
        1,
        (PROPS_DEPTH + 0) as nat,
    );
    if x.attributes.len() == 0 {
        assert(x.attributes =~= Seq::<AttributeView>::empty());
    }
    lemma_find_absent(x.props, Kind::Primitive, ATTRIBUTES@);
    if let Some(n) = x.indices {
        lemma_index_json(n);
    }
    lemma_find_absent(x.props, Kind::Primitive, INDICES@);
    if let Some(n) = x.material {
        lemma_index_json(n);
    }
    lemma_find_absent(x.props, Kind::Primitive, MATERIAL@);
    let typed = primitive_typed(x);
    lemma_members_deeper(x.props, PROPS_DEPTH as nat, (PROPS_DEPTH + 0) as nat);
    assert(members_well_formed(typed, (PROPS_DEPTH + 0) as nat));
    lemma_object_well_formed(typed + x.props, (PROPS_DEPTH + 0) as nat);
    assert(retain(typed, Kind::Primitive) =~= Seq::<MemberView>::empty());
    lemma_retain_all(x.props, Kind::Primitive);
    assert(retain(typed + x.props, Kind::Primitive) =~= x.props);
}

/// What is read as a primitive of a mesh can be written and read back.
pub proof fn lemma_primitive_of_ok(ms: Seq<MemberView>)
    requires
        primitive_of(ms) is Some,
    ensures
        primitive_of(ms)->Some_0.ok(),
{
    lemma_retain_sound(ms, Kind::Primitive, PROPS_DEPTH as nat);
}

/// What is read as a list of entities can be written and read back.
pub proof fn lemma_primitives_of_ok(items: Seq<JsonView>)
    requires
        primitives_of(items) is Some,
    ensures
        forall|i: int| 0 <= i < primitives_of(items)->Some_0.len() ==> (#[trigger] primitives_of(items)->Some_0[i]).ok(),
{
    let list = primitives_of(items)->Some_0;
    assert forall|i: int| 0 <= i < list.len() implies (#[trigger] list[i]).ok() by {
        assert(primitive_of_json(items[i]) is Some);
        match items[i] {
            JsonView::Object(inner) => {
                lemma_primitive_of_ok(inner);
            },
            _ => {},
        }
    }
}

/// A list of entities is read back from the JSON objects it is written
/// as, and those are well formed.
pub proof fn lemma_primitives_round_trip(list: Seq<PrimitiveView>)
    requires
        forall|i: int| 0 <= i < list.len() ==> (#[trigger] list[i]).ok(),
    ensures
        primitives_of(primitives_json(list)) == Some(list),
        forall|i: int|
            0 <= i < list.len() ==> well_formed(#[trigger] primitives_json(list)[i], (PROPS_DEPTH + 1) as nat),
    decreases list,
{
    let items = primitives_json(list);
    assert forall|i: int| 0 <= i < items.len() implies primitive_of_json(#[trigger] items[i]) == Some(list[i])
        && well_formed(items[i], (PROPS_DEPTH + 1) as nat) by {
        lemma_primitive_round_trip(list[i]);
    }
    assert(primitives_of(items).unwrap() =~= list);
}

/// The members of the JSON object of a mesh that the codec understands.
pub open spec fn mesh_typed(x: MeshView) -> Seq<MemberView> {
    let ms = Seq::<MemberView>::empty();
    let ms = with_array(ms, PRIMITIVES@, primitives_json(x.primitives));
    ms
}

/// The members of the JSON object of a mesh: what the codec understands,
/// then what is carried along.
pub open spec fn mesh_members(x: MeshView) -> Seq<MemberView> {
    mesh_typed(x) + x.props
}

/// The value of a mesh that the members `ms` denote.
pub open spec fn mesh_of(ms: Seq<MemberView>) -> Option<MeshView> {
    match primitives_under(ms, PRIMITIVES@) {
        Some(primitives) => if members_well_formed(retain(ms, Kind::Mesh), PROPS_DEPTH as nat) {
            Some(MeshView { primitives, props: retain(ms, Kind::Mesh) })
        } else {
            None
        },
        None => None,
    }
}

/// The value of a mesh that the JSON value `v` denotes.
pub open spec fn mesh_of_json(v: JsonView) -> Option<MeshView> {
    match v {
        JsonView::Object(ms) => mesh_of(ms),
        _ => None,
    }
}

/// The values that the items denote, if every one of them denotes one.
pub open spec fn meshes_of(items: Seq<JsonView>) -> Option<Seq<MeshView>> {
    if forall|i: int| 0 <= i < items.len() ==> mesh_of_json(#[trigger] items[i]) is Some {
        Some(Seq::new(items.len(), |i: int| mesh_of_json(items[i]).unwrap()))
    } else {
        None
    }
}

/// The JSON objects of a list of entities.
pub open spec fn meshes_json(list: Seq<MeshView>) -> Seq<JsonView> {
    Seq::new(list.len(), |i: int| JsonView::Object(mesh_members(list[i])))
}

/// The entities under `key`: none where the member is absent.
pub open spec fn meshes_under(ms: Seq<MemberView>, key: Seq<u8>) -> Option<Seq<MeshView>> {
    match array(ms, key) {
        Some(items) => meshes_of(items),
        None => None,
    }
}

/// Reads a mesh from the members of its JSON object.
pub fn read_mesh(ms: &Vec<Member>) -> (r: Option<Mesh>)
    ensures
        match r {
            Some(x) => mesh_of(members_view(ms@)) == Some(x@) && x@.ok(),
            None => mesh_of(members_view(ms@)) is None,
        },
{
    let primitives = match get_primitives(ms, &PRIMITIVES) {
        Some(v) => v,
        None => {
            return None;
        },
    };
    let props = keep(ms, Kind::Mesh);
    if !check_members(&props, PROPS_DEPTH) {
        return None;
    }
    proof {
        lemma_retain_sound(members_view(ms@), Kind::Mesh, PROPS_DEPTH as nat);
    }
    Some(Mesh { primitives, props })
}

/// Reads a list of entities from the items of a JSON array.
pub fn read_meshes(items: &Vec<Json>) -> (r: Option<Vec<Mesh>>)
    ensures
        match r {
            Some(list) => meshes_of(items_view(items@)) == Some(views(list@)) && forall|i: int|
                0 <= i < list.len() ==> (#[trigger] views(list@)[i]).ok(),
            None => meshes_of(items_view(items@)) is None,
        },
{
    let ghost iv = items_view(items@);
    let mut out: Vec<Mesh> = Vec::new();
    let mut i: usize = 0;
    while i < items.len()
        invariant
            i <= items.len(),
            iv == items_view(items@),
            out.len() == i,
            forall|j: int| 0 <= j < i ==> mesh_of_json(#[trigger] iv[j]) == Some(out@[j]@),
            forall|j: int| 0 <= j < i ==> (#[trigger] out@[j])@.ok(),
        decreases items.len() - i,
    {
        assert(iv[i as int] == items@[i as int]@);
        let found = match &items[i] {
            Json::Object(ms) => {
                proof {
                    lemma_object_view(*ms);
                }
                read_mesh(ms)
            },
            _ => None,
        };
        match found {
            Some(x) => {
                out.push(x);
            },
            None => {
                assert(iv.len() == items.len());
                assert(mesh_of_json(iv[i as int]) is None);
                return None;
            },
        }
        i += 1;
    }
    assert(meshes_of(iv).unwrap() =~= views(out@));
    Some(out)
}

/// Reads the entities under `key`.
pub fn get_meshes(ms: &Vec<Member>, key: &[u8]) -> (r: Option<Vec<Mesh>>)
    ensures
        match r {
            Some(list) => meshes_under(members_view(ms@), key@) == Some(views(list@)) && forall|i: int|
                0 <= i < list.len() ==> (#[trigger] views(list@)[i]).ok(),
            None => meshes_under(members_view(ms@), key@) is None,
        },
{
    match get_array(ms, key) {
        Some(Some(items)) => read_meshes(items),
        Some(None) => {
            let out: Vec<Mesh> = Vec::new();
            assert(meshes_of(Seq::<JsonView>::empty()).unwrap() =~= views(out@));
            Some(out)
        },
        None => None,
    }
}

/// Writes the members of the JSON object of a mesh.
pub fn write_mesh(x: &Mesh) -> (r: Vec<Member>)
    ensures
        members_view(r@) == mesh_members(x@),
{
    let mut ms: Vec<Member> = Vec::new();
    assert(members_view(ms@) =~= Seq::<MemberView>::empty());
    put_array(&mut ms, &PRIMITIVES, write_primitives(&x.primitives));
    put_all(&mut ms, &x.props);
    ms
}

/// Writes the JSON objects of a list of entities.
pub fn write_meshes(list: &Vec<Mesh>) -> (r: Vec<Json>)
    ensures
        items_view(r@) == meshes_json(views(list@)),
{
    let mut out: Vec<Json> = Vec::new();
    let mut i: usize = 0;
    while i < list.len()
        invariant
            i <= list.len(),
            out.len() == i,
            forall|j: int| 0 <= j < i ==> (#[trigger] out@[j])@ == JsonView::Object(mesh_members(list@[j]@)),
        decreases list.len() - i,
    {
        let ms = write_mesh(&list[i]);
        proof {
            lemma_object_view(ms);
        }
        out.push(Json::Object(ms));
        i += 1;
    }
    assert(items_view(out@) =~= meshes_json(views(list@)));
    out
}

/// A mesh is read back from the members it is written as, and those are
/// well formed.
pub proof fn lemma_mesh_round_trip(x: MeshView)
    requires
        x.ok(),
    ensures
        mesh_of(mesh_members(x)) == Some(x),
        well_formed(JsonView::Object(mesh_members(x)), (PROPS_DEPTH + 3) as nat),
    decreases x,
{
    broadcast use group_members;

    lemma_names_mesh();
    lemma_primitives_round_trip(x.primitives);
    lemma_array_well_formed(primitives_json(x.primitives), (PROPS_DEPTH + 1) as nat);
    lemma_well_formed_deeper(
        JsonView::Array(primitives_json(x.primitives)),
        (PROPS_DEPTH + 2) as nat,
        (PROPS_DEPTH + 2) as nat,
    );
    if x.primitives.len() == 0 {
        assert(x.primitives =~= Seq::<PrimitiveView>::empty());
        assert(primitives_of(Seq::<JsonView>::empty()).unwrap() =~= Seq::<PrimitiveView>::empty());
    }
    lemma_find_absent(x.props, Kind::Mesh, PRIMITIVES@);
    let typed = mesh_typed(x);
    lemma_members_deeper(x.props, PROPS_DEPTH as nat, (PROPS_DEPTH + 2) as nat);
    assert(members_well_formed(typed, (PROPS_DEPTH + 2) as nat));
    lemma_object_well_formed(typed + x.props, (PROPS_DEPTH + 2) as nat);
    assert(retain(typed, Kind::Mesh) =~= Seq::<MemberView>::empty());
    lemma_retain_all(x.props, Kind::Mesh);
    assert(retain(typed + x.props, Kind::Mesh) =~= x.props);
}

/// What is read as a mesh can be written and read back.
pub proof fn lemma_mesh_of_ok(ms: Seq<MemberView>)
    requires
        mesh_of(ms) is Some,
    ensures
        mesh_of(ms)->Some_0.ok(),
{
    lemma_retain_sound(ms, Kind::Mesh, PROPS_DEPTH as nat);
    match array(ms, PRIMITIVES@) {
        Some(items) => {
            if primitives_of(items) is Some {
                lemma_primitives_of_ok(items);
            }
        },
        None => {},
    }
}

/// What is read as a list of entities can be written and read back.
pub proof fn lemma_meshes_of_ok(items: Seq<JsonView>)
    requires
        meshes_of(items) is Some,
    ensures
        forall|i: int| 0 <= i < meshes_of(items)->Some_0.len() ==> (#[trigger] meshes_of(items)->Some_0[i]).ok(),
{
    let list = meshes_of(items)->Some_0;
    assert forall|i: int| 0 <= i < list.len() implies (#[trigger] list[i]).ok() by {
        assert(mesh_of_json(items[i]) is Some);
        match items[i] {
            JsonView::Object(inner) => {
                lemma_mesh_of_ok(inner);
            },
            _ => {},
        }
    }
}

/// A list of entities is read back from the JSON objects it is written
/// as, and those are well formed.
pub proof fn lemma_meshes_round_trip(list: Seq<MeshView>)
    requires
        forall|i: int| 0 <= i < list.len() ==> (#[trigger] list[i]).ok(),
    ensures
        meshes_of(meshes_json(list)) == Some(list),
        forall|i: int|
            0 <= i < list.len() ==> well_formed(#[trigger] meshes_json(list)[i], (PROPS_DEPTH + 3) as nat),
    decreases list,
{
    let items = meshes_json(list);
    assert forall|i: int| 0 <= i < items.len() implies mesh_of_json(#[trigger] items[i]) == Some(list[i])
        && well_formed(items[i], (PROPS_DEPTH + 3) as nat) by {
        lemma_mesh_round_trip(list[i]);
    }
    assert(meshes_of(items).unwrap() =~= list);
}

/// The members of the JSON object of a node that the codec understands.
pub open spec fn node_typed(x: NodeView) -> Seq<MemberView> {
    let ms = Seq::<MemberView>::empty();
    let ms = with_index_list(ms, CHILDREN@, x.children);
    let ms = with_index(ms, MESH@, x.mesh);
    let ms = with_object(ms, EXTENSIONS@, x.extensions);
    ms
}

/// The members of the JSON object of a node: what the codec understands,
/// then what is carried along.
pub open spec fn node_members(x: NodeView) -> Seq<MemberView> {
    node_typed(x) + x.props
}

/// The value of a node that the members `ms` denote.
pub open spec fn node_of(ms: Seq<MemberView>) -> Option<NodeView> {
    match (index_list(ms, CHILDREN@), opt_index(ms, MESH@), payloads(ms, EXTENSIONS@)) {
        (Some(children), Some(mesh), Some(extensions)) => if members_well_formed(retain(ms, Kind::Node), PROPS_DEPTH as nat) {
            Some(NodeView { children, mesh, extensions, props: retain(ms, Kind::Node) })
        } else {
            None
        },
        _ => None,
    }
}

/// The value of a node that the JSON value `v` denotes.
pub open spec fn node_of_json(v: JsonView) -> Option<NodeView> {
    match v {
        JsonView::Object(ms) => node_of(ms),
        _ => None,
    }
}

/// The values that the items denote, if every one of them denotes one.
pub open spec fn nodes_of(items: Seq<JsonView>) -> Option<Seq<NodeView>> {
    if forall|i: int| 0 <= i < items.len() ==> node_of_json(#[trigger] items[i]) is Some {
        Some(Seq::new(items.len(), |i: int| node_of_json(items[i]).unwrap()))
    } else {
        None
    }
}

/// The JSON objects of a list of entities.
pub open spec fn nodes_json(list: Seq<NodeView>) -> Seq<JsonView> {
    Seq::new(list.len(), |i: int| JsonView::Object(node_members(list[i])))
}

/// The entities under `key`: none where the member is absent.
pub open spec fn nodes_under(ms: Seq<MemberView>, key: Seq<u8>) -> Option<Seq<NodeView>> {
    match array(ms, key) {
        Some(items) => nodes_of(items),
        None => None,
    }
}

/// Reads a node from the members of its JSON object.
pub fn read_node(ms: &Vec<Member>) -> (r: Option<Node>)
    ensures
        match r {
            Some(x) => node_of(members_view(ms@)) == Some(x@) && x@.ok(),
            None => node_of(members_view(ms@)) is None,
        },
{
    let children = match get_index_list(ms, &CHILDREN) {
        Some(v) => v,
        None => {
            return None;
        },
    };
    let mesh = match get_index(ms, &MESH) {
        Some(v) => v,
        None => {
            return None;
        },
    };
    let extensions = match get_payloads(ms, &EXTENSIONS) {
        Some(v) => v,
        None => {
            return None;
        },
    };
    let props = keep(ms, Kind::Node);
    if !check_members(&props, PROPS_DEPTH) {
        return None;
    }
    proof {
        lemma_retain_sound(members_view(ms@), Kind::Node, PROPS_DEPTH as nat);
    }
    Some(Node { children, mesh, extensions, props })
}

/// Reads a list of entities from the items of a JSON array.
pub fn read_nodes(items: &Vec<Json>) -> (r: Option<Vec<Node>>)
    ensures
        match r {
            Some(list) => nodes_of(items_view(items@)) == Some(views(list@)) && forall|i: int|
                0 <= i < list.len() ==> (#[trigger] views(list@)[i]).ok(),
            None => nodes_of(items_view(items@)) is None,
        },
{
    let ghost iv = items_view(items@);
    let mut out: Vec<Node> = Vec::new();
    let mut i: usize = 0;
    while i < items.len()
        invariant
            i <= items.len(),
            iv == items_view(items@),
            out.len() == i,
            forall|j: int| 0 <= j < i ==> node_of_json(#[trigger] iv[j]) == Some(out@[j]@),
            forall|j: int| 0 <= j < i ==> (#[trigger] out@[j])@.ok(),
        decreases items.len() - i,
    {
        assert(iv[i as int] == items@[i as int]@);
        let found = match &items[i] {
            Json::Object(ms) => {
                proof {
                    lemma_object_view(*ms);
                }
                read_node(ms)
            },
            _ => None,
        };
        match found {
            Some(x) => {
                out.push(x);
            },
            None => {
                assert(iv.len() == items.len());
                assert(node_of_json(iv[i as int]) is None);
                return None;
            },
        }
        i += 1;
    }
    assert(nodes_of(iv).unwrap() =~= views(out@));
    Some(out)
}

/// Reads the entities under `key`.
pub fn get_nodes(ms: &Vec<Member>, key: &[u8]) -> (r: Option<Vec<Node>>)
    ensures
        match r {
            Some(list) => nodes_under(members_view(ms@), key@) == Some(views(list@)) && forall|i: int|
                0 <= i < list.len() ==> (#[trigger] views(list@)[i]).ok(),
            None => nodes_under(members_view(ms@), key@) is None,
        },
{
    match get_array(ms, key) {
        Some(Some(items)) => read_nodes(items),
        Some(None) => {
            let out: Vec<Node> = Vec::new();
            assert(nodes_of(Seq::<JsonView>::empty()).unwrap() =~= views(out@));
            Some(out)
        },
        None => None,
    }
}

/// Writes the members of the JSON object of a node.
pub fn write_node(x: &Node) -> (r: Vec<Member>)
    ensures
        members_view(r@) == node_members(x@),
{
    let mut ms: Vec<Member> = Vec::new();
    assert(members_view(ms@) =~= Seq::<MemberView>::empty());
    put_index_list(&mut ms, &CHILDREN, &x.children);
    put_index(&mut ms, &MESH, x.mesh);
    put_object(&mut ms, &EXTENSIONS, duplicate_members(&x.extensions));
    put_all(&mut ms, &x.props);
    ms
}

/// Writes the JSON objects of a list of entities.
pub fn write_nodes(list: &Vec<Node>) -> (r: Vec<Json>)
    ensures
        items_view(r@) == nodes_json(views(list@)),
{
    let mut out: Vec<Json> = Vec::new();
    let mut i: usize = 0;
    while i < list.len()
        invariant
            i <= list.len(),
            out.len() == i,
            forall|j: int| 0 <= j < i ==> (#[trigger] out@[j])@ == JsonView::Object(node_members(list@[j]@)),
        decreases list.len() - i,
    {
        let ms = write_node(&list[i]);
        proof {
            lemma_object_view(ms);
        }
        out.push(Json::Object(ms));
        i += 1;
    }
    assert(items_view(out@) =~= nodes_json(views(list@)));
    out
}

/// A node is read back from the members it is written as, and those are
/// well formed.
pub proof fn lemma_node_round_trip(x: NodeView)
    requires
        x.ok(),
    ensures
        node_of(node_members(x)) == Some(x),
        well_formed(JsonView::Object(node_members(x)), (PROPS_DEPTH + 2) as nat),
    decreases x,
{
    broadcast use group_members;

    lemma_names_node();
    lemma_indices_json(x.children);
    if x.children.len() == 0 {
        assert(x.children =~= Seq::<usize>::empty());
    }
    lemma_find_absent(x.props, Kind::Node, CHILDREN@);
    if let Some(n) = x.mesh {
        lemma_index_json(n);
    }
    lemma_find_absent(x.props, Kind::Node, MESH@);
    lemma_object_well_formed(x.extensions, PROPS_DEPTH as nat);
    lemma_well_formed_deeper(
        JsonView::Object(x.extensions),
        (PROPS_DEPTH + 1) as nat,
        (PROPS_DEPTH + 1) as nat,
    );
    if x.extensions.len() == 0 {
        assert(x.extensions =~= Seq::<MemberView>::empty());
    }
    lemma_find_absent(x.props, Kind::Node, EXTENSIONS@);
    let typed = node_typed(x);
    lemma_members_deeper(x.props, PROPS_DEPTH as nat, (PROPS_DEPTH + 1) as nat);
    assert(members_well_formed(typed, (PROPS_DEPTH + 1) as nat));
    lemma_object_well_formed(typed + x.props, (PROPS_DEPTH + 1) as nat);
    assert(retain(typed, Kind::Node) =~= Seq::<MemberView>::empty());
    lemma_retain_all(x.props, Kind::Node);
    assert(retain(typed + x.props, Kind::Node) =~= x.props);
}

/// What is read as a node can be written and read back.
pub proof fn lemma_node_of_ok(ms: Seq<MemberView>)
    requires
        node_of(ms) is Some,
    ensures
        node_of(ms)->Some_0.ok(),
{
    lemma_retain_sound(ms, Kind::Node, PROPS_DEPTH as nat);
}

/// What is read as a list of entities can be written and read back.
pub proof fn lemma_nodes_of_ok(items: Seq<JsonView>)
    requires
        nodes_of(items) is Some,
    ensures
        forall|i: int| 0 <= i < nodes_of(items)->Some_0.len() ==> (#[trigger] nodes_of(items)->Some_0[i]).ok(),
{
    let list = nodes_of(items)->Some_0;
    assert forall|i: int| 0 <= i < list.len() implies (#[trigger] list[i]).ok() by {
        assert(node_of_json(items[i]) is Some);
        match items[i] {
            JsonView::Object(inner) => {
                lemma_node_of_ok(inner);
            },
            _ => {},
        }
    }
}

/// A list of entities is read back from the JSON objects it is written
/// as, and those are well formed.
pub proof fn lemma_nodes_round_trip(list: Seq<NodeView>)
    requires
        forall|i: int| 0 <= i < list.len() ==> (#[trigger] list[i]).ok(),
    ensures
        nodes_of(nodes_json(list)) == Some(list),
        forall|i: int|
            0 <= i < list.len() ==> well_formed(#[trigger] nodes_json(list)[i], (PROPS_DEPTH + 2) as nat),
    decreases list,
{
    let items = nodes_json(list);
    assert forall|i: int| 0 <= i < items.len() implies node_of_json(#[trigger] items[i]) == Some(list[i])
        && well_formed(items[i], (PROPS_DEPTH + 2) as nat) by {
        lemma_node_round_trip(list[i]);
    }
    assert(nodes_of(items).unwrap() =~= list);
}

/// The members of the JSON object of a scene that the codec understands.
pub open spec fn scene_typed(x: SceneView) -> Seq<MemberView> {
    let ms = Seq::<MemberView>::empty();
    let ms = with_index_list(ms, NODES@, x.nodes);
    ms
}

/// The members of the JSON object of a scene: what the codec understands,
/// then what is carried along.
pub open spec fn scene_members(x: SceneView) -> Seq<MemberView> {
    scene_typed(x) + x.props
}

/// The value of a scene that the members `ms` denote.
pub open spec fn scene_of(ms: Seq<MemberView>) -> Option<SceneView> {
    match index_list(ms, NODES@) {
        Some(nodes) => if members_well_formed(retain(ms, Kind::Scene), PROPS_DEPTH as nat) {
            Some(SceneView { nodes, props: retain(ms, Kind::Scene) })
        } else {
            None
        },
        None => None,
    }
}

/// The value of a scene that the JSON value `v` denotes.
pub open spec fn scene_of_json(v: JsonView) -> Option<SceneView> {
    match v {
        JsonView::Object(ms) => scene_of(ms),
        _ => None,
    }
}

/// The values that the items denote, if every one of them denotes one.
pub open spec fn scenes_of(items: Seq<JsonView>) -> Option<Seq<SceneView>> {
    if forall|i: int| 0 <= i < items.len() ==> scene_of_json(#[trigger] items[i]) is Some {
        Some(Seq::new(items.len(), |i: int| scene_of_json(items[i]).unwrap()))
    } else {
        None
    }
}

/// The JSON objects of a list of entities.
pub open spec fn scenes_json(list: Seq<SceneView>) -> Seq<JsonView> {
    Seq::new(list.len(), |i: int| JsonView::Object(scene_members(list[i])))
}

/// The entities under `key`: none where the member is absent.
pub open spec fn scenes_under(ms: Seq<MemberView>, key: Seq<u8>) -> Option<Seq<SceneView>> {
    match array(ms, key) {
        Some(items) => scenes_of(items),
        None => None,
    }
}

/// Reads a scene from the members of its JSON object.
pub fn read_scene(ms: &Vec<Member>) -> (r: Option<Scene>)
    ensures
        match r {
            Some(x) => scene_of(members_view(ms@)) == Some(x@) && x@.ok(),
            None => scene_of(members_view(ms@)) is None,
        },
{
    let nodes = match get_index_list(ms, &NODES) {
        Some(v) => v,
        None => {
            return None;
        },
    };
    let props = keep(ms, Kind::Scene);
    if !check_members(&props, PROPS_DEPTH) {
        return None;
    }
    proof {
        lemma_retain_sound(members_view(ms@), Kind::Scene, PROPS_DEPTH as nat);
    }
    Some(Scene { nodes, props })
}

/// Reads a list of entities from the items of a JSON array.
pub fn read_scenes(items: &Vec<Json>) -> (r: Option<Vec<Scene>>)
    ensures
        match r {
            Some(list) => scenes_of(items_view(items@)) == Some(views(list@)) && forall|i: int|
                0 <= i < list.len() ==> (#[trigger] views(list@)[i]).ok(),
            None => scenes_of(items_view(items@)) is None,
        },
{
    let ghost iv = items_view(items@);
    let mut out: Vec<Scene> = Vec::new();
    let mut i: usize = 0;
    while i < items.len()
        invariant
            i <= items.len(),
            iv == items_view(items@),
            out.len() == i,
            forall|j: int| 0 <= j < i ==> scene_of_json(#[trigger] iv[j]) == Some(out@[j]@),
            forall|j: int| 0 <= j < i ==> (#[trigger] out@[j])@.ok(),
        decreases items.len() - i,
    {
        assert(iv[i as int] == items@[i as int]@);
        let found = match &items[i] {
            Json::Object(ms) => {
                proof {
                    lemma_object_view(*ms);
                }
                read_scene(ms)
            },
            _ => None,
        };
        match found {
            Some(x) => {
                out.push(x);
            },
            None => {
                assert(iv.len() == items.len());
                assert(scene_of_json(iv[i as int]) is None);
                return None;
            },
        }
        i += 1;
    }
    assert(scenes_of(iv).unwrap() =~= views(out@));
    Some(out)
}

/// Reads the entities under `key`.
pub fn get_scenes(ms: &Vec<Member>, key: &[u8]) -> (r: Option<Vec<Scene>>)
    ensures
        match r {
            Some(list) => scenes_under(members_view(ms@), key@) == Some(views(list@)) && forall|i: int|
                0 <= i < list.len() ==> (#[trigger] views(list@)[i]).ok(),
            None => scenes_under(members_view(ms@), key@) is None,
        },
{
    match get_array(ms, key) {
        Some(Some(items)) => read_scenes(items),
        Some(None) => {
            let out: Vec<Scene> = Vec::new();
            assert(scenes_of(Seq::<JsonView>::empty()).unwrap() =~= views(out@));
            Some(out)
        },
        None => None,
    }
}

/// Writes the members of the JSON object of a scene.
pub fn write_scene(x: &Scene) -> (r: Vec<Member>)
    ensures
        members_view(r@) == scene_members(x@),
{
    let mut ms: Vec<Member> = Vec::new();
    assert(members_view(ms@) =~= Seq::<MemberView>::empty());
    put_index_list(&mut ms, &NODES, &x.nodes);
    put_all(&mut ms, &x.props);
    ms
}

/// Writes the JSON objects of a list of entities.
pub fn write_scenes(list: &Vec<Scene>) -> (r: Vec<Json>)
    ensures
        items_view(r@) == scenes_json(views(list@)),
{
    let mut out: Vec<Json> = Vec::new();
    let mut i: usize = 0;
    while i < list.len()
        invariant
            i <= list.len(),
            out.len() == i,
            forall|j: int| 0 <= j < i ==> (#[trigger] out@[j])@ == JsonView::Object(scene_members(list@[j]@)),
        decreases list.len() - i,
    {
        let ms = write_scene(&list[i]);
        proof {
            lemma_object_view(ms);
        }
        out.push(Json::Object(ms));
        i += 1;
    }
    assert(items_view(out@) =~= scenes_json(views(list@)));
    out
}

/// A scene is read back from the members it is written as, and those are
/// well formed.
pub proof fn lemma_scene_round_trip(x: SceneView)
    requires
        x.ok(),
    ensures
        scene_of(scene_members(x)) == Some(x),
        well_formed(JsonView::Object(scene_members(x)), (PROPS_DEPTH + 1) as nat),
    decreases x,
{
    broadcast use group_members;

    lemma_names_scene();
    lemma_indices_json(x.nodes);
    if x.nodes.len() == 0 {
        assert(x.nodes =~= Seq::<usize>::empty());
    }
    lemma_find_absent(x.props, Kind::Scene, NODES@);
    let typed = scene_typed(x);
    lemma_members_deeper(x.props, PROPS_DEPTH as nat, (PROPS_DEPTH + 0) as nat);
    assert(members_well_formed(typed, (PROPS_DEPTH + 0) as nat));
    lemma_object_well_formed(typed + x.props, (PROPS_DEPTH + 0) as nat);
    assert(retain(typed, Kind::Scene) =~= Seq::<MemberView>::empty());
    lemma_retain_all(x.props, Kind::Scene);
    assert(retain(typed + x.props, Kind::Scene) =~= x.props);
}

/// What is read as a scene can be written and read back.
pub proof fn lemma_scene_of_ok(ms: Seq<MemberView>)
    requires
        scene_of(ms) is Some,
    ensures
        scene_of(ms)->Some_0.ok(),
{
    lemma_retain_sound(ms, Kind::Scene, PROPS_DEPTH as nat);
}

/// What is read as a list of entities can be written and read back.
pub proof fn lemma_scenes_of_ok(items: Seq<JsonView>)
    requires
        scenes_of(items) is Some,
    ensures
        forall|i: int| 0 <= i < scenes_of(items)->Some_0.len() ==> (#[trigger] scenes_of(items)->Some_0[i]).ok(),
{
    let list = scenes_of(items)->Some_0;
    assert forall|i: int| 0 <= i < list.len() implies (#[trigger] list[i]).ok() by {
        assert(scene_of_json(items[i]) is Some);
        match items[i] {
            JsonView::Object(inner) => {
                lemma_scene_of_ok(inner);
            },
            _ => {},
        }
    }
}

/// A list of entities is read back from the JSON objects it is written
/// as, and those are well formed.
pub proof fn lemma_scenes_round_trip(list: Seq<SceneView>)
    requires
        forall|i: int| 0 <= i < list.len() ==> (#[trigger] list[i]).ok(),
    ensures
        scenes_of(scenes_json(list)) == Some(list),
        forall|i: int|
            0 <= i < list.len() ==> well_formed(#[trigger] scenes_json(list)[i], (PROPS_DEPTH + 1) as nat),
    decreases list,
{
    let items = scenes_json(list);
    assert forall|i: int| 0 <= i < items.len() implies scene_of_json(#[trigger] items[i]) == Some(list[i])
        && well_formed(items[i], (PROPS_DEPTH + 1) as nat) by {
        lemma_scene_round_trip(list[i]);
    }
    assert(scenes_of(items).unwrap() =~= list);
}

/// The members of the JSON object of a texture that the codec understands.
pub open spec fn texture_typed(x: TextureView) -> Seq<MemberView> {
    let ms = Seq::<MemberView>::empty();
    let ms = with_index(ms, SOURCE@, x.source);
    let ms = with_index(ms, SAMPLER@, x.sampler);
    let ms = with_object(ms, EXTENSIONS@, x.extensions);
    ms
}

/// The members of the JSON object of a texture: what the codec understands,
/// then what is carried along.
pub open spec fn texture_members(x: TextureView) -> Seq<MemberView> {
    texture_typed(x) + x.props
}

/// The value of a texture that the members `ms` denote.
pub open spec fn texture_of(ms: Seq<MemberView>) -> Option<TextureView> {
    match (opt_index(ms, SOURCE@), opt_index(ms, SAMPLER@), payloads(ms, EXTENSIONS@)) {
        (Some(source), Some(sampler), Some(extensions)) => if members_well_formed(retain(ms, Kind::Texture), PROPS_DEPTH as nat) {
            Some(TextureView { source, sampler, extensions, props: retain(ms, Kind::Texture) })
        } else {
            None
        },
        _ => None,
    }
}

/// The value of a texture that the JSON value `v` denotes.
pub open spec fn texture_of_json(v: JsonView) -> Option<TextureView> {
    match v {
        JsonView::Object(ms) => texture_of(ms),
        _ => None,
    }
}

/// The values that the items denote, if every one of them denotes one.
pub open spec fn textures_of(items: Seq<JsonView>) -> Option<Seq<TextureView>> {
    if forall|i: int| 0 <= i < items.len() ==> texture_of_json(#[trigger] items[i]) is Some {
        Some(Seq::new(items.len(), |i: int| texture_of_json(items[i]).unwrap()))
    } else {
        None
    }
}

/// The JSON objects of a list of entities.
pub open spec fn textures_json(list: Seq<TextureView>) -> Seq<JsonView> {
    Seq::new(list.len(), |i: int| JsonView::Object(texture_members(list[i])))
}

/// The entities under `key`: none where the member is absent.
pub open spec fn textures_under(ms: Seq<MemberView>, key: Seq<u8>) -> Option<Seq<TextureView>> {
    match array(ms, key) {
        Some(items) => textures_of(items),
        None => None,
    }
}

/// Reads a texture from the members of its JSON object.
pub fn read_texture(ms: &Vec<Member>) -> (r: Option<Texture>)
    ensures
        match r {
            Some(x) => texture_of(members_view(ms@)) == Some(x@) && x@.ok(),
            None => texture_of(members_view(ms@)) is None,
        },
{
    let source = match get_index(ms, &SOURCE) {
        Some(v) => v,
        None => {
            return None;
        },
    };
    let sampler = match get_index(ms, &SAMPLER) {
        Some(v) => v,
        None => {
            return None;
        },
    };
    let extensions = match get_payloads(ms, &EXTENSIONS) {
        Some(v) => v,
        None => {
            return None;
        },
    };
    let props = keep(ms, Kind::Texture);
    if !check_members(&props, PROPS_DEPTH) {
        return None;
    }
    proof {
        lemma_retain_sound(members_view(ms@), Kind::Texture, PROPS_DEPTH as nat);
    }
    Some(Texture { source, sampler, extensions, props })
}

/// Reads a list of entities from the items of a JSON array.
pub fn read_textures(items: &Vec<Json>) -> (r: Option<Vec<Texture>>)
    ensures
        match r {
            Some(list) => textures_of(items_view(items@)) == Some(views(list@)) && forall|i: int|
                0 <= i < list.len() ==> (#[trigger] views(list@)[i]).ok(),
            None => textures_of(items_view(items@)) is None,
        },
{
    let ghost iv = items_view(items@);
    let mut out: Vec<Texture> = Vec::new();
    let mut i: usize = 0;
    while i < items.len()
        invariant
            i <= items.len(),
            iv == items_view(items@),
            out.len() == i,
            forall|j: int| 0 <= j < i ==> texture_of_json(#[trigger] iv[j]) == Some(out@[j]@),
            forall|j: int| 0 <= j < i ==> (#[trigger] out@[j])@.ok(),
        decreases items.len() - i,
    {
        assert(iv[i as int] == items@[i as int]@);
        let found = match &items[i] {
            Json::Object(ms) => {
                proof {
                    lemma_object_view(*ms);
                }
                read_texture(ms)
            },
            _ => None,
        };
        match found {
            Some(x) => {
                out.push(x);
            },
            None => {
                assert(iv.len() == items.len());
                assert(texture_of_json(iv[i as int]) is None);
                return None;
            },
        }
        i += 1;
    }
    assert(textures_of(iv).unwrap() =~= views(out@));
    Some(out)
}

/// Reads the entities under `key`.
pub fn get_textures(ms: &Vec<Member>, key: &[u8]) -> (r: Option<Vec<Texture>>)
    ensures
        match r {
            Some(list) => textures_under(members_view(ms@), key@) == Some(views(list@)) && forall|i: int|
                0 <= i < list.len() ==> (#[trigger] views(list@)[i]).ok(),
            None => textures_under(members_view(ms@), key@) is None,
        },
{
    match get_array(ms, key) {
        Some(Some(items)) => read_textures(items),
        Some(None) => {
            let out: Vec<Texture> = Vec::new();
            assert(textures_of(Seq::<JsonView>::empty()).unwrap() =~= views(out@));
            Some(out)
        },
        None => None,
    }
}

/// Writes the members of the JSON object of a texture.
pub fn write_texture(x: &Texture) -> (r: Vec<Member>)
    ensures
        members_view(r@) == texture_members(x@),
{
    let mut ms: Vec<Member> = Vec::new();
    assert(members_view(ms@) =~= Seq::<MemberView>::empty());
    put_index(&mut ms, &SOURCE, x.source);
    put_index(&mut ms, &SAMPLER, x.sampler);
    put_object(&mut ms, &EXTENSIONS, duplicate_members(&x.extensions));
    put_all(&mut ms, &x.props);
    ms
}

/// Writes the JSON objects of a list of entities.
pub fn write_textures(list: &Vec<Texture>) -> (r: Vec<Json>)
    ensures
        items_view(r@) == textures_json(views(list@)),
{
    let mut out: Vec<Json> = Vec::new();
    let mut i: usize = 0;
    while i < list.len()
        invariant
            i <= list.len(),
            out.len() == i,
            forall|j: int| 0 <= j < i ==> (#[trigger] out@[j])@ == JsonView::Object(texture_members(list@[j]@)),
        decreases list.len() - i,
    {
        let ms = write_texture(&list[i]);
        proof {
            lemma_object_view(ms);
        }
        out.push(Json::Object(ms));
        i += 1;
    }
    assert(items_view(out@) =~= textures_json(views(list@)));
    out
}

/// A texture is read back from the members it is written as, and those are
/// well formed.
pub proof fn lemma_texture_round_trip(x: TextureView)
    requires
        x.ok(),
    ensures
        texture_of(texture_members(x)) == Some(x),
        well_formed(JsonView::Object(texture_members(x)), (PROPS_DEPTH + 2) as nat),
    decreases x,
{
    broadcast use group_members;

    lemma_names_texture();
    if let Some(n) = x.source {
        lemma_index_json(n);
    }
    lemma_find_absent(x.props, Kind::Texture, SOURCE@);
    if let Some(n) = x.sampler {
        lemma_index_json(n);
    }
    lemma_find_absent(x.props, Kind::Texture, SAMPLER@);
    lemma_object_well_formed(x.extensions, PROPS_DEPTH as nat);
    lemma_well_formed_deeper(
        JsonView::Object(x.extensions),
        (PROPS_DEPTH + 1) as nat,
        (PROPS_DEPTH + 1) as nat,
    );
    if x.extensions.len() == 0 {
        assert(x.extensions =~= Seq::<MemberView>::empty());
    }
    lemma_find_absent(x.props, Kind::Texture, EXTENSIONS@);
    let typed = texture_typed(x);
    lemma_members_deeper(x.props, PROPS_DEPTH as nat, (PROPS_DEPTH + 1) as nat);
    assert(members_well_formed(typed, (PROPS_DEPTH + 1) as nat));
    lemma_object_well_formed(typed + x.props, (PROPS_DEPTH + 1) as nat);
    assert(retain(typed, Kind::Texture) =~= Seq::<MemberView>::empty());
    lemma_retain_all(x.props, Kind::Texture);
    assert(retain(typed + x.props, Kind::Texture) =~= x.props);
}

/// What is read as a texture can be written and read back.
pub proof fn lemma_texture_of_ok(ms: Seq<MemberView>)
    requires
        texture_of(ms) is Some,
    ensures
        texture_of(ms)->Some_0.ok(),
{
    lemma_retain_sound(ms, Kind::Texture, PROPS_DEPTH as nat);
}

/// What is read as a list of entities can be written and read back.
pub proof fn lemma_textures_of_ok(items: Seq<JsonView>)
    requires
        textures_of(items) is Some,
    ensures
        forall|i: int| 0 <= i < textures_of(items)->Some_0.len() ==> (#[trigger] textures_of(items)->Some_0[i]).ok(),
{
    let list = textures_of(items)->Some_0;
    assert forall|i: int| 0 <= i < list.len() implies (#[trigger] list[i]).ok() by {
        assert(texture_of_json(items[i]) is Some);
        match items[i] {
            JsonView::Object(inner) => {
                lemma_texture_of_ok(inner);
            },
            _ => {},
        }
    }
}

/// A list of entities is read back from the JSON objects it is written
/// as, and those are well formed.
pub proof fn lemma_textures_round_trip(list: Seq<TextureView>)
    requires
        forall|i: int| 0 <= i < list.len() ==> (#[trigger] list[i]).ok(),
    ensures
        textures_of(textures_json(list)) == Some(list),
        forall|i: int|
            0 <= i < list.len() ==> well_formed(#[trigger] textures_json(list)[i], (PROPS_DEPTH + 2) as nat),
    decreases list,
{
    let items = textures_json(list);
    assert forall|i: int| 0 <= i < items.len() implies texture_of_json(#[trigger] items[i]) == Some(list[i])
        && well_formed(items[i], (PROPS_DEPTH + 2) as nat) by {
        lemma_texture_round_trip(list[i]);
    }
    assert(textures_of(items).unwrap() =~= list);
}

/// The members of the JSON object of an image that the codec understands.
pub open spec fn image_typed(x: ImageView) -> Seq<MemberView> {
    let ms = Seq::<MemberView>::empty();
    let ms = with_index(ms, BUFFER_VIEW@, x.view);
    let ms = with_text(ms, MIME_TYPE@, x.mime);
    let ms = with_text(ms, URI@, x.uri);
    ms
}

/// The members of the JSON object of an image: what the codec understands,
/// then what is carried along.
pub open spec fn image_members(x: ImageView) -> Seq<MemberView> {
    image_typed(x) + x.props
}

/// The value of an image that the members `ms` denote.
pub open spec fn image_of(ms: Seq<MemberView>) -> Option<ImageView> {
    match (opt_index(ms, BUFFER_VIEW@), opt_text(ms, MIME_TYPE@), opt_text(ms, URI@)) {
        (Some(view), Some(mime), Some(uri)) => if members_well_formed(retain(ms, Kind::Image), PROPS_DEPTH as nat) {
            Some(ImageView { view, mime, uri, props: retain(ms, Kind::Image) })
        } else {
            None
        },
        _ => None,
    }
}

/// The value of an image that the JSON value `v` denotes.
pub open spec fn image_of_json(v: JsonView) -> Option<ImageView> {
    match v {
        JsonView::Object(ms) => image_of(ms),
        _ => None,
    }
}

/// The values that the items denote, if every one of them denotes one.
pub open spec fn images_of(items: Seq<JsonView>) -> Option<Seq<ImageView>> {
    if forall|i: int| 0 <= i < items.len() ==> image_of_json(#[trigger] items[i]) is Some {
        Some(Seq::new(items.len(), |i: int| image_of_json(items[i]).unwrap()))
    } else {
        None
    }
}

/// The JSON objects of a list of entities.
pub open spec fn images_json(list: Seq<ImageView>) -> Seq<JsonView> {
    Seq::new(list.len(), |i: int| JsonView::Object(image_members(list[i])))
}

/// The entities under `key`: none where the member is absent.
pub open spec fn images_under(ms: Seq<MemberView>, key: Seq<u8>) -> Option<Seq<ImageView>> {
    match array(ms, key) {
        Some(items) => images_of(items),
        None => None,
    }
}

/// Reads an image from the members of its JSON object.
pub fn read_image(ms: &Vec<Member>) -> (r: Option<Image>)
    ensures
        match r {
            Some(x) => image_of(members_view(ms@)) == Some(x@) && x@.ok(),
            None => image_of(members_view(ms@)) is None,
        },
{
    let view = match get_index(ms, &BUFFER_VIEW) {
        Some(v) => v,
        None => {
            return None;
        },
    };
    let mime = match get_text(ms, &MIME_TYPE) {
        Some(v) => v,
        None => {
            return None;
        },
    };
    let uri = match get_text(ms, &URI) {
        Some(v) => v,
        None => {
            return None;
        },
    };
    let props = keep(ms, Kind::Image);
    if !check_members(&props, PROPS_DEPTH) {
        return None;
    }
    proof {
        lemma_retain_sound(members_view(ms@), Kind::Image, PROPS_DEPTH as nat);
    }
    Some(Image { view, mime, uri, props })
}

/// Reads a list of entities from the items of a JSON array.
pub fn read_images(items: &Vec<Json>) -> (r: Option<Vec<Image>>)
    ensures
        match r {
            Some(list) => images_of(items_view(items@)) == Some(views(list@)) && forall|i: int|
                0 <= i < list.len() ==> (#[trigger] views(list@)[i]).ok(),
            None => images_of(items_view(items@)) is None,
        },
{
    let ghost iv = items_view(items@);
    let mut out: Vec<Image> = Vec::new();
    let mut i: usize = 0;
    while i < items.len()
        invariant
            i <= items.len(),
            iv == items_view(items@),
            out.len() == i,
            forall|j: int| 0 <= j < i ==> image_of_json(#[trigger] iv[j]) == Some(out@[j]@),
            forall|j: int| 0 <= j < i ==> (#[trigger] out@[j])@.ok(),
        decreases items.len() - i,
    {
        assert(iv[i as int] == items@[i as int]@);
        let found = match &items[i] {
            Json::Object(ms) => {
                proof {
                    lemma_object_view(*ms);
                }
                read_image(ms)
            },
            _ => None,
        };
        match found {
            Some(x) => {
                out.push(x);
            },
            None => {
                assert(iv.len() == items.len());
                assert(image_of_json(iv[i as int]) is None);
                return None;
            },
        }
        i += 1;
    }
    assert(images_of(iv).unwrap() =~= views(out@));
    Some(out)
}

/// Reads the entities under `key`.
pub fn get_images(ms: &Vec<Member>, key: &[u8]) -> (r: Option<Vec<Image>>)
    ensures
        match r {
            Some(list) => images_under(members_view(ms@), key@) == Some(views(list@)) && forall|i: int|
                0 <= i < list.len() ==> (#[trigger] views(list@)[i]).ok(),
            None => images_under(members_view(ms@), key@) is None,
        },
{
    match get_array(ms, key) {
        Some(Some(items)) => read_images(items),
        Some(None) => {
            let out: Vec<Image> = Vec::new();
            assert(images_of(Seq::<JsonView>::empty()).unwrap() =~= views(out@));
            Some(out)
        },
        None => None,
    }
}

/// Writes the members of the JSON object of an image.
pub fn write_image(x: &Image) -> (r: Vec<Member>)
    ensures
        members_view(r@) == image_members(x@),
{
    let mut ms: Vec<Member> = Vec::new();
    assert(members_view(ms@) =~= Seq::<MemberView>::empty());
    put_index(&mut ms, &BUFFER_VIEW, x.view);
    put_text(&mut ms, &MIME_TYPE, &x.mime);
    put_text(&mut ms, &URI, &x.uri);
    put_all(&mut ms, &x.props);
    ms
}

/// Writes the JSON objects of a list of entities.
pub fn write_images(list: &Vec<Image>) -> (r: Vec<Json>)
    ensures
        items_view(r@) == images_json(views(list@)),
{
    let mut out: Vec<Json> = Vec::new();
    let mut i: usize = 0;
    while i < list.len()
        invariant
            i <= list.len(),
            out.len() == i,
            forall|j: int| 0 <= j < i ==> (#[trigger] out@[j])@ == JsonView::Object(image_members(list@[j]@)),
        decreases list.len() - i,
    {
        let ms = write_image(&list[i]);
        proof {
            lemma_object_view(ms);
        }
        out.push(Json::Object(ms));
        i += 1;
    }
    assert(items_view(out@) =~= images_json(views(list@)));
    out
}

/// An image is read back from the members it is written as, and those are
/// well formed.
pub proof fn lemma_image_round_trip(x: ImageView)
    requires
        x.ok(),
    ensures
        image_of(image_members(x)) == Some(x),
        well_formed(JsonView::Object(image_members(x)), (PROPS_DEPTH + 1) as nat),
    decreases x,
{
    broadcast use group_members;

    lemma_names_image();
    if let Some(n) = x.view {
        lemma_index_json(n);
    }
    lemma_find_absent(x.props, Kind::Image, BUFFER_VIEW@);
    lemma_find_absent(x.props, Kind::Image, MIME_TYPE@);
    lemma_find_absent(x.props, Kind::Image, URI@);
    let typed = image_typed(x);
    lemma_members_deeper(x.props, PROPS_DEPTH as nat, (PROPS_DEPTH + 0) as nat);
    assert(members_well_formed(typed, (PROPS_DEPTH + 0) as nat));
    lemma_object_well_formed(typed + x.props, (PROPS_DEPTH + 0) as nat);
    assert(retain(typed, Kind::Image) =~= Seq::<MemberView>::empty());
    lemma_retain_all(x.props, Kind::Image);
    assert(retain(typed + x.props, Kind::Image) =~= x.props);
}

/// What is read as an image can be written and read back.
pub proof fn lemma_image_of_ok(ms: Seq<MemberView>)
    requires
        image_of(ms) is Some,
    ensures
        image_of(ms)->Some_0.ok(),
{
    lemma_retain_sound(ms, Kind::Image, PROPS_DEPTH as nat);
}

/// What is read as a list of entities can be written and read back.
pub proof fn lemma_images_of_ok(items: Seq<JsonView>)
    requires
        images_of(items) is Some,
    ensures
        forall|i: int| 0 <= i < images_of(items)->Some_0.len() ==> (#[trigger] images_of(items)->Some_0[i]).ok(),
{
    let list = images_of(items)->Some_0;
    assert forall|i: int| 0 <= i < list.len() implies (#[trigger] list[i]).ok() by {
        assert(image_of_json(items[i]) is Some);
        match items[i] {
            JsonView::Object(inner) => {
                lemma_image_of_ok(inner);
            },
            _ => {},
        }
    }
}

/// A list of entities is read back from the JSON objects it is written
/// as, and those are well formed.
pub proof fn lemma_images_round_trip(list: Seq<ImageView>)
    requires
        forall|i: int| 0 <= i < list.len() ==> (#[trigger] list[i]).ok(),
    ensures
        images_of(images_json(list)) == Some(list),
        forall|i: int|
            0 <= i < list.len() ==> well_formed(#[trigger] images_json(list)[i], (PROPS_DEPTH + 1) as nat),
    decreases list,
{
    let items = images_json(list);
    assert forall|i: int| 0 <= i < items.len() implies image_of_json(#[trigger] items[i]) == Some(list[i])
        && well_formed(items[i], (PROPS_DEPTH + 1) as nat) by {
        lemma_image_round_trip(list[i]);
    }
    assert(images_of(items).unwrap() =~= list);
}

/// The members of the JSON object of a sampler that the codec understands.
pub open spec fn sampler_typed(x: SamplerView) -> Seq<MemberView> {
    let ms = Seq::<MemberView>::empty();
    ms
}

/// The members of the JSON object of a sampler: what the codec understands,
/// then what is carried along.
pub open spec fn sampler_members(x: SamplerView) -> Seq<MemberView> {
    sampler_typed(x) + x.props
}

/// The value of a sampler that the members `ms` denote.
pub open spec fn sampler_of(ms: Seq<MemberView>) -> Option<SamplerView> {
    if members_well_formed(retain(ms, Kind::Sampler), PROPS_DEPTH as nat) {
        Some(SamplerView { props: retain(ms, Kind::Sampler) })
    } else {
        None
    }
}

/// The value of a sampler that the JSON value `v` denotes.
pub open spec fn sampler_of_json(v: JsonView) -> Option<SamplerView> {
    match v {
        JsonView::Object(ms) => sampler_of(ms),
        _ => None,
    }
}

/// The values that the items denote, if every one of them denotes one.
pub open spec fn samplers_of(items: Seq<JsonView>) -> Option<Seq<SamplerView>> {
    if forall|i: int| 0 <= i < items.len() ==> sampler_of_json(#[trigger] items[i]) is Some {
        Some(Seq::new(items.len(), |i: int| sampler_of_json(items[i]).unwrap()))
    } else {
        None
    }
}

/// The JSON objects of a list of entities.
pub open spec fn samplers_json(list: Seq<SamplerView>) -> Seq<JsonView> {
    Seq::new(list.len(), |i: int| JsonView::Object(sampler_members(list[i])))
}

/// The entities under `key`: none where the member is absent.
pub open spec fn samplers_under(ms: Seq<MemberView>, key: Seq<u8>) -> Option<Seq<SamplerView>> {
    match array(ms, key) {
        Some(items) => samplers_of(items),
        None => None,
    }
}

/// Reads a sampler from the members of its JSON object.
pub fn read_sampler(ms: &Vec<Member>) -> (r: Option<Sampler>)
    ensures
        match r {
            Some(x) => sampler_of(members_view(ms@)) == Some(x@) && x@.ok(),
            None => sampler_of(members_view(ms@)) is None,
        },
{
    let props = keep(ms, Kind::Sampler);
    if !check_members(&props, PROPS_DEPTH) {
        return None;
    }
    proof {
        lemma_retain_sound(members_view(ms@), Kind::Sampler, PROPS_DEPTH as nat);
    }
    Some(Sampler { props })
}

/// Reads a list of entities from the items of a JSON array.
pub fn read_samplers(items: &Vec<Json>) -> (r: Option<Vec<Sampler>>)
    ensures
        match r {
            Some(list) => samplers_of(items_view(items@)) == Some(views(list@)) && forall|i: int|
                0 <= i < list.len() ==> (#[trigger] views(list@)[i]).ok(),
            None => samplers_of(items_view(items@)) is None,
        },
{
    let ghost iv = items_view(items@);
    let mut out: Vec<Sampler> = Vec::new();
    let mut i: usize = 0;
    while i < items.len()
        invariant
            i <= items.len(),
            iv == items_view(items@),
            out.len() == i,
            forall|j: int| 0 <= j < i ==> sampler_of_json(#[trigger] iv[j]) == Some(out@[j]@),
            forall|j: int| 0 <= j < i ==> (#[trigger] out@[j])@.ok(),
        decreases items.len() - i,
    {
        assert(iv[i as int] == items@[i as int]@);
        let found = match &items[i] {
            Json::Object(ms) => {
                proof {
                    lemma_object_view(*ms);
                }
                read_sampler(ms)
            },
            _ => None,
        };
        match found {
            Some(x) => {
                out.push(x);
            },
            None => {
                assert(iv.len() == items.len());
                assert(sampler_of_json(iv[i as int]) is None);
                return None;
            },
        }
        i += 1;
    }
    assert(samplers_of(iv).unwrap() =~= views(out@));
    Some(out)
}

/// Reads the entities under `key`.
pub fn get_samplers(ms: &Vec<Member>, key: &[u8]) -> (r: Option<Vec<Sampler>>)
    ensures
        match r {
            Some(list) => samplers_under(members_view(ms@), key@) == Some(views(list@)) && forall|i: int|
                0 <= i < list.len() ==> (#[trigger] views(list@)[i]).ok(),
            None => samplers_under(members_view(ms@), key@) is None,
        },
{
    match get_array(ms, key) {
        Some(Some(items)) => read_samplers(items),
        Some(None) => {
            let out: Vec<Sampler> = Vec::new();
            assert(samplers_of(Seq::<JsonView>::empty()).unwrap() =~= views(out@));
            Some(out)
        },
        None => None,
    }
}

/// Writes the members of the JSON object of a sampler.
pub fn write_sampler(x: &Sampler) -> (r: Vec<Member>)
    ensures
        members_view(r@) == sampler_members(x@),
{
    let mut ms: Vec<Member> = Vec::new();
    assert(members_view(ms@) =~= Seq::<MemberView>::empty());
    put_all(&mut ms, &x.props);
    ms
}

/// Writes the JSON objects of a list of entities.
pub fn write_samplers(list: &Vec<Sampler>) -> (r: Vec<Json>)
    ensures
        items_view(r@) == samplers_json(views(list@)),
{
    let mut out: Vec<Json> = Vec::new();
    let mut i: usize = 0;
    while i < list.len()
        invariant
            i <= list.len(),
            out.len() == i,
            forall|j: int| 0 <= j < i ==> (#[trigger] out@[j])@ == JsonView::Object(sampler_members(list@[j]@)),
        decreases list.len() - i,
    {
        let ms = write_sampler(&list[i]);
        proof {
            lemma_object_view(ms);
        }
        out.push(Json::Object(ms));
        i += 1;
    }
    assert(items_view(out@) =~= samplers_json(views(list@)));
    out
}

/// A sampler is read back from the members it is written as, and those are
/// well formed.
pub proof fn lemma_sampler_round_trip(x: SamplerView)
    requires
        x.ok(),
    ensures
        sampler_of(sampler_members(x)) == Some(x),
        well_formed(JsonView::Object(sampler_members(x)), (PROPS_DEPTH + 1) as nat),
    decreases x,
{
    broadcast use group_members;

    let typed = sampler_typed(x);
    lemma_members_deeper(x.props, PROPS_DEPTH as nat, (PROPS_DEPTH + 0) as nat);
    assert(members_well_formed(typed, (PROPS_DEPTH + 0) as nat));
    lemma_object_well_formed(typed + x.props, (PROPS_DEPTH + 0) as nat);
    assert(retain(typed, Kind::Sampler) =~= Seq::<MemberView>::empty());
    lemma_retain_all(x.props, Kind::Sampler);
    assert(retain(typed + x.props, Kind::Sampler) =~= x.props);
}

/// What is read as a sampler can be written and read back.
pub proof fn lemma_sampler_of_ok(ms: Seq<MemberView>)
    requires
        sampler_of(ms) is Some,
    ensures
        sampler_of(ms)->Some_0.ok(),
{
    lemma_retain_sound(ms, Kind::Sampler, PROPS_DEPTH as nat);
}

/// What is read as a list of entities can be written and read back.
pub proof fn lemma_samplers_of_ok(items: Seq<JsonView>)
    requires
        samplers_of(items) is Some,
    ensures
        forall|i: int| 0 <= i < samplers_of(items)->Some_0.len() ==> (#[trigger] samplers_of(items)->Some_0[i]).ok(),
{
    let list = samplers_of(items)->Some_0;
    assert forall|i: int| 0 <= i < list.len() implies (#[trigger] list[i]).ok() by {
        assert(sampler_of_json(items[i]) is Some);
        match items[i] {
            JsonView::Object(inner) => {
                lemma_sampler_of_ok(inner);
            },
            _ => {},
        }
    }
}

/// A list of entities is read back from the JSON objects it is written
/// as, and those are well formed.
pub proof fn lemma_samplers_round_trip(list: Seq<SamplerView>)
    requires
        forall|i: int| 0 <= i < list.len() ==> (#[trigger] list[i]).ok(),
    ensures
        samplers_of(samplers_json(list)) == Some(list),
        forall|i: int|
            0 <= i < list.len() ==> well_formed(#[trigger] samplers_json(list)[i], (PROPS_DEPTH + 1) as nat),
    decreases list,
{
    let items = samplers_json(list);
    assert forall|i: int| 0 <= i < items.len() implies sampler_of_json(#[trigger] items[i]) == Some(list[i])
        && well_formed(items[i], (PROPS_DEPTH + 1) as nat) by {
        lemma_sampler_round_trip(list[i]);
    }
    assert(samplers_of(items).unwrap() =~= list);
}

/// The members of the JSON object of an accessor that the codec understands.
#[verifier::opaque]
pub open spec fn accessor_typed(x: AccessorView) -> Seq<MemberView> {
    let ms = Seq::<MemberView>::empty();
    let ms = with_index(ms, BUFFER_VIEW@, x.view);
    let ms = with_index(ms, BYTE_OFFSET@, nonzero(x.offset));
    let ms = with_index(ms, COMPONENT_TYPE@, Some(x.component));
    let ms = with_index(ms, COUNT@, Some(x.count));
    let ms = with_text(ms, KIND@, Some(x.kind));
    let ms = with_flag(ms, NORMALIZED@, x.normalized);
    ms
}

/// The members of the JSON object of an accessor: what the codec understands,
/// then what is carried along.
pub open spec fn accessor_members(x: AccessorView) -> Seq<MemberView> {
    accessor_typed(x) + x.props
}

/// The value of an accessor that the members `ms` denote.
#[verifier::opaque]
pub open spec fn accessor_of(ms: Seq<MemberView>) -> Option<AccessorView> {
    match (opt_index(ms, BUFFER_VIEW@), def_index(ms, BYTE_OFFSET@), req_index(ms, COMPONENT_TYPE@), req_index(ms, COUNT@), req_text(ms, KIND@), flag(ms, NORMALIZED@)) {
        (Some(view), Some(offset), Some(component), Some(count), Some(kind), Some(normalized)) => if members_well_formed(retain(ms, Kind::Accessor), PROPS_DEPTH as nat) {
            Some(AccessorView { view, offset, component, count, kind, normalized, props: retain(ms, Kind::Accessor) })
        } else {
            None
        },
        _ => None,
    }
}

/// The value of an accessor that the JSON value `v` denotes.
pub open spec fn accessor_of_json(v: JsonView) -> Option<AccessorView> {
    match v {
        JsonView::Object(ms) => accessor_of(ms),
        _ => None,
    }
}

/// The values that the items denote, if every one of them denotes one.
pub open spec fn accessors_of(items: Seq<JsonView>) -> Option<Seq<AccessorView>> {
    if forall|i: int| 0 <= i < items.len() ==> accessor_of_json(#[trigger] items[i]) is Some {
        Some(Seq::new(items.len(), |i: int| accessor_of_json(items[i]).unwrap()))
    } else {
        None
    }
}

/// The JSON objects of a list of entities.
pub open spec fn accessors_json(list: Seq<AccessorView>) -> Seq<JsonView> {
    Seq::new(list.len(), |i: int| JsonView::Object(accessor_members(list[i])))
}

/// The entities under `key`: none where the member is absent.
pub open spec fn accessors_under(ms: Seq<MemberView>, key: Seq<u8>) -> Option<Seq<AccessorView>> {
    match array(ms, key) {
        Some(items) => accessors_of(items),
        None => None,
    }
}

/// Reads an accessor from the members of its JSON object.
pub fn read_accessor(ms: &Vec<Member>) -> (r: Option<Accessor>)
    ensures
        match r {
            Some(x) => accessor_of(members_view(ms@)) == Some(x@) && x@.ok(),
            None => accessor_of(members_view(ms@)) is None,
        },
{
    proof {
        reveal(accessor_of);
        reveal(AccessorView::ok);
    }
    let view = match get_index(ms, &BUFFER_VIEW) {
        Some(v) => v,
        None => {
            return None;
        },
    };
    let offset = match get_def_index(ms, &BYTE_OFFSET) {
        Some(v) => v,
        None => {
            return None;
        },
    };
    let component = match get_req_index(ms, &COMPONENT_TYPE) {
        Some(v) => v,
        None => {
            return None;
        },
    };
    let count = match get_req_index(ms, &COUNT) {
        Some(v) => v,
        None => {
            return None;
        },
    };
    let kind = match get_req_text(ms, &KIND) {
        Some(v) => v,
        None => {
            return None;
        },
    };
    let normalized = match get_flag(ms, &NORMALIZED) {
        Some(v) => v,
        None => {
            return None;
        },
    };
    let props = keep(ms, Kind::Accessor);
    if !check_members(&props, PROPS_DEPTH) {
        return None;
    }
    proof {
        lemma_retain_sound(members_view(ms@), Kind::Accessor, PROPS_DEPTH as nat);
    }
    Some(Accessor { view, offset, component, count, kind, normalized, props })
}

/// Reads a list of entities from the items of a JSON array.
pub fn read_accessors(items: &Vec<Json>) -> (r: Option<Vec<Accessor>>)
    ensures
        match r {
            Some(list) => accessors_of(items_view(items@)) == Some(views(list@)) && forall|i: int|
                0 <= i < list.len() ==> (#[trigger] views(list@)[i]).ok(),
            None => accessors_of(items_view(items@)) is None,
        },
{
    let ghost iv = items_view(items@);
    let mut out: Vec<Accessor> = Vec::new();
    let mut i: usize = 0;
    while i < items.len()
        invariant
            i <= items.len(),
            iv == items_view(items@),
            out.len() == i,
            forall|j: int| 0 <= j < i ==> accessor_of_json(#[trigger] iv[j]) == Some(out@[j]@),
            forall|j: int| 0 <= j < i ==> (#[trigger] out@[j])@.ok(),
        decreases items.len() - i,
    {
        assert(iv[i as int] == items@[i as int]@);
        let found = match &items[i] {
            Json::Object(ms) => {
                proof {
                    lemma_object_view(*ms);
                }
                read_accessor(ms)
            },
            _ => None,
        };
        match found {
            Some(x) => {
                out.push(x);
            },
            None => {
                assert(iv.len() == items.len());
                assert(accessor_of_json(iv[i as int]) is None);
                return None;
            },
        }
        i += 1;
    }
    assert(accessors_of(iv).unwrap() =~= views(out@));
    Some(out)
}

/// Reads the entities under `key`.
pub fn get_accessors(ms: &Vec<Member>, key: &[u8]) -> (r: Option<Vec<Accessor>>)
    ensures
        match r {
            Some(list) => accessors_under(members_view(ms@), key@) == Some(views(list@)) && forall|i: int|
                0 <= i < list.len() ==> (#[trigger] views(list@)[i]).ok(),
            None => accessors_under(members_view(ms@), key@) is None,
        },
{
    match get_array(ms, key) {
        Some(Some(items)) => read_accessors(items),
        Some(None) => {
            let out: Vec<Accessor> = Vec::new();
            assert(accessors_of(Seq::<JsonView>::empty()).unwrap() =~= views(out@));
            Some(out)
        },
        None => None,
    }
}

/// Writes the members of the JSON object of an accessor.
pub fn write_accessor(x: &Accessor) -> (r: Vec<Member>)
    ensures
        members_view(r@) == accessor_members(x@),
{
    let mut ms: Vec<Member> = Vec::new();
    assert(members_view(ms@) =~= Seq::<MemberView>::empty());
    proof {
        reveal(accessor_typed);
    }
    put_index(&mut ms, &BUFFER_VIEW, x.view);
    put_index(
        &mut ms,
        &BYTE_OFFSET,
        if x.offset == 0 {
            None
        } else {
            Some(x.offset)
        },
    );
    put_index(&mut ms, &COMPONENT_TYPE, Some(x.component));
    put_index(&mut ms, &COUNT, Some(x.count));
    put(&mut ms, &KIND, Json::Text(clone_bytes(&x.kind)));
    put_flag(&mut ms, &NORMALIZED, x.normalized);
    put_all(&mut ms, &x.props);
    ms
}

/// Writes the JSON objects of a list of entities.
pub fn write_accessors(list: &Vec<Accessor>) -> (r: Vec<Json>)
    ensures
        items_view(r@) == accessors_json(views(list@)),
{
    let mut out: Vec<Json> = Vec::new();
    let mut i: usize = 0;
    while i < list.len()
        invariant
            i <= list.len(),
            out.len() == i,
            forall|j: int| 0 <= j < i ==> (#[trigger] out@[j])@ == JsonView::Object(accessor_members(list@[j]@)),
        decreases list.len() - i,
    {
        let ms = write_accessor(&list[i]);
        proof {
            lemma_object_view(ms);
        }
        out.push(Json::Object(ms));
        i += 1;
    }
    assert(items_view(out@) =~= accessors_json(views(list@)));
    out
}

/// What stands under `bufferView` among the members the codec writes for
/// an accessor.
proof fn lemma_accessor_find_view(x: AccessorView)
    ensures
        find(accessor_typed(x), BUFFER_VIEW@) == match x.view {
        Some(n) => Some(index_json(n)),
        None => None,
    },
{
    broadcast use lemma_find_with_member;

    reveal(accessor_typed);
    lemma_names_accessor();
}

/// What the codec writes under `bufferView` for an accessor is well formed
/// and is read back.
proof fn lemma_accessor_value_view(x: AccessorView)
    requires
        x.ok(),
    ensures
        (match x.view {
                Some(n) => Some(index_json(n)),
                None => None,
            }) matches Some(v) ==> well_formed(v, (PROPS_DEPTH + 0) as nat),
        forall|ms: Seq<MemberView>|
            find(ms, BUFFER_VIEW@) == (match x.view {
                Some(n) => Some(index_json(n)),
                None => None,
            }) ==> #[trigger] opt_index(ms, BUFFER_VIEW@) == Some(x.view),
{
    reveal(AccessorView::ok);
    if let Some(n) = x.view {
        lemma_index_json(n);
    }
}

/// What stands under `byteOffset` among the members the codec writes for
/// an accessor.
proof fn lemma_accessor_find_offset(x: AccessorView)
    ensures
        find(accessor_typed(x), BYTE_OFFSET@) == if x.offset == 0 {
        None
    } else {
        Some(index_json(x.offset))
    },
{
    broadcast use lemma_find_with_member;

    reveal(accessor_typed);
    lemma_names_accessor();
}

/// What the codec writes under `byteOffset` for an accessor is well formed
/// and is read back.
proof fn lemma_accessor_value_offset(x: AccessorView)
    requires
        x.ok(),
    ensures
        (if x.offset == 0 {
                None
            } else {
                Some(index_json(x.offset))
            }) matches Some(v) ==> well_formed(v, (PROPS_DEPTH + 0) as nat),
        forall|ms: Seq<MemberView>|
            find(ms, BYTE_OFFSET@) == (if x.offset == 0 {
                None
            } else {
                Some(index_json(x.offset))
            }) ==> #[trigger] def_index(ms, BYTE_OFFSET@) == Some(x.offset),
{
    reveal(AccessorView::ok);
    lemma_index_json(x.offset);
}

/// What stands under `componentType` among the members the codec writes for
/// an accessor.
proof fn lemma_accessor_find_component(x: AccessorView)
    ensures
        find(accessor_typed(x), COMPONENT_TYPE@) == Some(index_json(x.component)),
{
    broadcast use lemma_find_with_member;

    reveal(accessor_typed);
    lemma_names_accessor();
}

/// What the codec writes under `componentType` for an accessor is well formed
/// and is read back.
proof fn lemma_accessor_value_component(x: AccessorView)
    requires
        x.ok(),
    ensures
        (Some(index_json(x.component))) matches Some(v) ==> well_formed(v, (PROPS_DEPTH + 0) as nat),
        forall|ms: Seq<MemberView>|
            find(ms, COMPONENT_TYPE@) == (Some(index_json(x.component))) ==> #[trigger] req_index(ms, COMPONENT_TYPE@) == Some(x.component),
{
    reveal(AccessorView::ok);
    lemma_index_json(x.component);
}

/// What stands under `count` among the members the codec writes for
/// an accessor.
proof fn lemma_accessor_find_count(x: AccessorView)
    ensures
        find(accessor_typed(x), COUNT@) == Some(index_json(x.count)),
{
    broadcast use lemma_find_with_member;

    reveal(accessor_typed);
    lemma_names_accessor();
}

/// What the codec writes under `count` for an accessor is well formed and is
/// read back.
proof fn lemma_accessor_value_count(x: AccessorView)
    requires
        x.ok(),
    ensures
        (Some(index_json(x.count))) matches Some(v) ==> well_formed(v, (PROPS_DEPTH + 0) as nat),
        forall|ms: Seq<MemberView>|
            find(ms, COUNT@) == (Some(index_json(x.count))) ==> #[trigger] req_index(ms, COUNT@) == Some(x.count),
{
    reveal(AccessorView::ok);
    lemma_index_json(x.count);
}

/// What stands under `type` among the members the codec writes for
/// an accessor.
proof fn lemma_accessor_find_kind(x: AccessorView)
    ensures
        find(accessor_typed(x), KIND@) == Some(JsonView::Text(x.kind)),
{
    broadcast use lemma_find_with_member;

    reveal(accessor_typed);
    lemma_names_accessor();
}

/// What the codec writes under `type` for an accessor is well formed and is
/// read back.
proof fn lemma_accessor_value_kind(x: AccessorView)
    requires
        x.ok(),
    ensures
        (Some(JsonView::Text(x.kind))) matches Some(v) ==> well_formed(v, (PROPS_DEPTH + 0) as nat),
        forall|ms: Seq<MemberView>|
            find(ms, KIND@) == (Some(JsonView::Text(x.kind))) ==> #[trigger] req_text(ms, KIND@) == Some(x.kind),
{
    reveal(AccessorView::ok);
}

/// What stands under `normalized` among the members the codec writes for
/// an accessor.
proof fn lemma_accessor_find_normalized(x: AccessorView)
    ensures
        find(accessor_typed(x), NORMALIZED@) == if x.normalized {
        Some(JsonView::Bool(true))
    } else {
        None
    },
{
    broadcast use lemma_find_with_member;

    reveal(accessor_typed);
    lemma_names_accessor();
}

/// What the codec writes under `normalized` for an accessor is well formed
/// and is read back.
proof fn lemma_accessor_value_normalized(x: AccessorView)
    requires
        x.ok(),
    ensures
        (if x.normalized {
                Some(JsonView::Bool(true))
            } else {
                None
            }) matches Some(v) ==> well_formed(v, (PROPS_DEPTH + 0) as nat),
        forall|ms: Seq<MemberView>|
            find(ms, NORMALIZED@) == (if x.normalized {
                Some(JsonView::Bool(true))
            } else {
                None
            }) ==> #[trigger] flag(ms, NORMALIZED@) == Some(x.normalized),
{
    reveal(AccessorView::ok);
}

/// None of the members the codec writes for an accessor is carried along.
#[verifier::rlimit(50)]
proof fn lemma_accessor_retain(x: AccessorView)
    ensures
        retain(accessor_typed(x), Kind::Accessor) == Seq::<MemberView>::empty(),
{
    reveal(accessor_typed);
    lemma_names_accessor();
    let t0 = Seq::<MemberView>::empty();
    assert(retain(t0, Kind::Accessor) =~= Seq::<MemberView>::empty());
    lemma_retain_with_member(
        t0,
        BUFFER_VIEW@,
        match x.view {
            Some(n) => Some(index_json(n)),
            None => None,
        },
        Kind::Accessor,
    );
    let t1 = with_index(t0, BUFFER_VIEW@, x.view);
    assert(retain(t1, Kind::Accessor) == Seq::<MemberView>::empty());
    lemma_retain_with_member(
        t1,
        BYTE_OFFSET@,
        if x.offset == 0 {
            None
        } else {
            Some(index_json(x.offset))
        },
        Kind::Accessor,
    );
    let t2 = with_index(t1, BYTE_OFFSET@, nonzero(x.offset));
    assert(retain(t2, Kind::Accessor) == Seq::<MemberView>::empty());
    lemma_retain_with_member(
        t2,
        COMPONENT_TYPE@,
        Some(index_json(x.component)),
        Kind::Accessor,
    );
    let t3 = with_index(t2, COMPONENT_TYPE@, Some(x.component));
    assert(retain(t3, Kind::Accessor) == Seq::<MemberView>::empty());
    lemma_retain_with_member(
        t3,
        COUNT@,
        Some(index_json(x.count)),
        Kind::Accessor,
    );
    let t4 = with_index(t3, COUNT@, Some(x.count));
    assert(retain(t4, Kind::Accessor) == Seq::<MemberView>::empty());
    lemma_retain_with_member(
        t4,
        KIND@,
        Some(JsonView::Text(x.kind)),
        Kind::Accessor,
    );
    let t5 = with_text(t4, KIND@, Some(x.kind));
    assert(retain(t5, Kind::Accessor) == Seq::<MemberView>::empty());
    lemma_retain_with_member(
        t5,
        NORMALIZED@,
        if x.normalized {
            Some(JsonView::Bool(true))
        } else {
            None
        },
        Kind::Accessor,
    );
    let t6 = with_flag(t5, NORMALIZED@, x.normalized);
    assert(retain(t6, Kind::Accessor) == Seq::<MemberView>::empty());
}

/// The members the codec writes for an accessor are well formed.
proof fn lemma_accessor_well_formed(x: AccessorView)
    requires
        x.ok(),
    ensures
        members_well_formed(accessor_typed(x), (PROPS_DEPTH + 0) as nat),
{
    broadcast use lemma_well_formed_with_member;

    reveal(accessor_typed);
    lemma_accessor_value_view(x);
    lemma_accessor_value_offset(x);
    lemma_accessor_value_component(x);
    lemma_accessor_value_count(x);
    lemma_accessor_value_kind(x);
    lemma_accessor_value_normalized(x);
}

/// An accessor is read back from the members it is written as, and those are
/// well formed.
#[verifier::rlimit(50)]
pub proof fn lemma_accessor_round_trip(x: AccessorView)
    requires
        x.ok(),
    ensures
        accessor_of(accessor_members(x)) == Some(x),
        well_formed(JsonView::Object(accessor_members(x)), (PROPS_DEPTH + 1) as nat),
{
    reveal(AccessorView::ok);
    reveal(accessor_of);
    lemma_accessor_retain(x);
    lemma_accessor_well_formed(x);
    let typed = accessor_typed(x);
    lemma_accessor_find_view(x);
    lemma_accessor_value_view(x);
    lemma_find_concat(typed, x.props, BUFFER_VIEW@);
    lemma_find_absent(x.props, Kind::Accessor, BUFFER_VIEW@);
    lemma_accessor_find_offset(x);
    lemma_accessor_value_offset(x);
    lemma_find_concat(typed, x.props, BYTE_OFFSET@);
    lemma_find_absent(x.props, Kind::Accessor, BYTE_OFFSET@);
    lemma_accessor_find_component(x);
    lemma_accessor_value_component(x);
    lemma_find_concat(typed, x.props, COMPONENT_TYPE@);
    lemma_find_absent(x.props, Kind::Accessor, COMPONENT_TYPE@);
    lemma_accessor_find_count(x);
    lemma_accessor_value_count(x);
    lemma_find_concat(typed, x.props, COUNT@);
    lemma_find_absent(x.props, Kind::Accessor, COUNT@);
    lemma_accessor_find_kind(x);
    lemma_accessor_value_kind(x);
    lemma_find_concat(typed, x.props, KIND@);
    lemma_find_absent(x.props, Kind::Accessor, KIND@);
    lemma_accessor_find_normalized(x);
    lemma_accessor_value_normalized(x);
    lemma_find_concat(typed, x.props, NORMALIZED@);
    lemma_find_absent(x.props, Kind::Accessor, NORMALIZED@);
    lemma_names_accessor();
    lemma_members_deeper(x.props, PROPS_DEPTH as nat, (PROPS_DEPTH + 0) as nat);
    lemma_well_formed_concat(typed, x.props, (PROPS_DEPTH + 0) as nat);
    lemma_object_well_formed(typed + x.props, (PROPS_DEPTH + 0) as nat);
    lemma_retain_concat(typed, x.props, Kind::Accessor);
    lemma_retain_all(x.props, Kind::Accessor);
    assert(retain(typed + x.props, Kind::Accessor) =~= x.props);
}

/// What is read as an accessor can be written and read back.
pub proof fn lemma_accessor_of_ok(ms: Seq<MemberView>)
    requires
        accessor_of(ms) is Some,
    ensures
        accessor_of(ms)->Some_0.ok(),
{
    reveal(accessor_of);
    reveal(AccessorView::ok);
    lemma_retain_sound(ms, Kind::Accessor, PROPS_DEPTH as nat);
}

/// What is read as a list of entities can be written and read back.
pub proof fn lemma_accessors_of_ok(items: Seq<JsonView>)
    requires
        accessors_of(items) is Some,
    ensures
        forall|i: int| 0 <= i < accessors_of(items)->Some_0.len() ==> (#[trigger] accessors_of(items)->Some_0[i]).ok(),
{
    let list = accessors_of(items)->Some_0;
    assert forall|i: int| 0 <= i < list.len() implies (#[trigger] list[i]).ok() by {
        assert(accessor_of_json(items[i]) is Some);
        match items[i] {
            JsonView::Object(inner) => {
                lemma_accessor_of_ok(inner);
            },
            _ => {},
        }
    }
}

/// A list of entities is read back from the JSON objects it is written
/// as, and those are well formed.
pub proof fn lemma_accessors_round_trip(list: Seq<AccessorView>)
    requires
        forall|i: int| 0 <= i < list.len() ==> (#[trigger] list[i]).ok(),
    ensures
        accessors_of(accessors_json(list)) == Some(list),
        forall|i: int|
            0 <= i < list.len() ==> well_formed(#[trigger] accessors_json(list)[i], (PROPS_DEPTH + 1) as nat),
    decreases list,
{
    let items = accessors_json(list);
    assert forall|i: int| 0 <= i < items.len() implies accessor_of_json(#[trigger] items[i]) == Some(list[i])
        && well_formed(items[i], (PROPS_DEPTH + 1) as nat) by {
        lemma_accessor_round_trip(list[i]);
    }
    assert(accessors_of(items).unwrap() =~= list);
}

/// The members of the JSON object of a buffer that the codec understands.
pub open spec fn buffer_desc_typed(x: BufferDescView) -> Seq<MemberView> {
    let ms = Seq::<MemberView>::empty();
    let ms = with_index(ms, BYTE_LENGTH@, Some(x.length));
    let ms = with_text(ms, URI@, x.uri);
    ms
}

/// The members of the JSON object of a buffer: what the codec understands,
/// then what is carried along.
pub open spec fn buffer_desc_members(x: BufferDescView) -> Seq<MemberView> {
    buffer_desc_typed(x) + x.props
}

/// The value of a buffer that the members `ms` denote.
pub open spec fn buffer_desc_of(ms: Seq<MemberView>) -> Option<BufferDescView> {
    match (req_index(ms, BYTE_LENGTH@), opt_text(ms, URI@)) {
        (Some(length), Some(uri)) => if members_well_formed(retain(ms, Kind::Buffer), PROPS_DEPTH as nat) {
            Some(BufferDescView { length, uri, props: retain(ms, Kind::Buffer) })
        } else {
            None
        },
        _ => None,
    }
}

/// The value of a buffer that the JSON value `v` denotes.
pub open spec fn buffer_desc_of_json(v: JsonView) -> Option<BufferDescView> {
    match v {
        JsonView::Object(ms) => buffer_desc_of(ms),
        _ => None,
    }
}

/// The values that the items denote, if every one of them denotes one.
pub open spec fn buffer_descs_of(items: Seq<JsonView>) -> Option<Seq<BufferDescView>> {
    if forall|i: int| 0 <= i < items.len() ==> buffer_desc_of_json(#[trigger] items[i]) is Some {
        Some(Seq::new(items.len(), |i: int| buffer_desc_of_json(items[i]).unwrap()))
    } else {
        None
    }
}

/// The JSON objects of a list of entities.
pub open spec fn buffer_descs_json(list: Seq<BufferDescView>) -> Seq<JsonView> {
    Seq::new(list.len(), |i: int| JsonView::Object(buffer_desc_members(list[i])))
}

/// The entities under `key`: none where the member is absent.
pub open spec fn buffer_descs_under(ms: Seq<MemberView>, key: Seq<u8>) -> Option<Seq<BufferDescView>> {
    match array(ms, key) {
        Some(items) => buffer_descs_of(items),
        None => None,
    }
}

/// Reads a buffer from the members of its JSON object.
pub fn read_buffer_desc(ms: &Vec<Member>) -> (r: Option<BufferDesc>)
    ensures
        match r {
            Some(x) => buffer_desc_of(members_view(ms@)) == Some(x@) && x@.ok(),
            None => buffer_desc_of(members_view(ms@)) is None,
        },
{
    let length = match get_req_index(ms, &BYTE_LENGTH) {
        Some(v) => v,
        None => {
            return None;
        },
    };
    let uri = match get_text(ms, &URI) {
        Some(v) => v,
        None => {
            return None;
        },
    };
    let props = keep(ms, Kind::Buffer);
    if !check_members(&props, PROPS_DEPTH) {
        return None;
    }
    proof {
        lemma_retain_sound(members_view(ms@), Kind::Buffer, PROPS_DEPTH as nat);
    }
    Some(BufferDesc { length, uri, props })
}

/// Reads a list of entities from the items of a JSON array.
pub fn read_buffer_descs(items: &Vec<Json>) -> (r: Option<Vec<BufferDesc>>)
    ensures
        match r {
            Some(list) => buffer_descs_of(items_view(items@)) == Some(views(list@)) && forall|i: int|
                0 <= i < list.len() ==> (#[trigger] views(list@)[i]).ok(),
            None => buffer_descs_of(items_view(items@)) is None,
        },
{
    let ghost iv = items_view(items@);
    let mut out: Vec<BufferDesc> = Vec::new();
    let mut i: usize = 0;
    while i < items.len()
        invariant
            i <= items.len(),
            iv == items_view(items@),
            out.len() == i,
            forall|j: int| 0 <= j < i ==> buffer_desc_of_json(#[trigger] iv[j]) == Some(out@[j]@),
            forall|j: int| 0 <= j < i ==> (#[trigger] out@[j])@.ok(),
        decreases items.len() - i,
    {
        assert(iv[i as int] == items@[i as int]@);
        let found = match &items[i] {
            Json::Object(ms) => {
                proof {
                    lemma_object_view(*ms);
                }
                read_buffer_desc(ms)
            },
            _ => None,
        };
        match found {
            Some(x) => {
                out.push(x);
            },
            None => {
                assert(iv.len() == items.len());
                assert(buffer_desc_of_json(iv[i as int]) is None);
                return None;
            },
        }
        i += 1;
    }
    assert(buffer_descs_of(iv).unwrap() =~= views(out@));
    Some(out)
}

/// Reads the entities under `key`.
pub fn get_buffer_descs(ms: &Vec<Member>, key: &[u8]) -> (r: Option<Vec<BufferDesc>>)
    ensures
        match r {
            Some(list) => buffer_descs_under(members_view(ms@), key@) == Some(views(list@)) && forall|i: int|
                0 <= i < list.len() ==> (#[trigger] views(list@)[i]).ok(),
            None => buffer_descs_under(members_view(ms@), key@) is None,
        },
{
    match get_array(ms, key) {
        Some(Some(items)) => read_buffer_descs(items),
        Some(None) => {
            let out: Vec<BufferDesc> = Vec::new();
            assert(buffer_descs_of(Seq::<JsonView>::empty()).unwrap() =~= views(out@));
            Some(out)
        },
        None => None,
    }
}

/// Writes the members of the JSON object of a buffer.
pub fn write_buffer_desc(x: &BufferDesc) -> (r: Vec<Member>)
    ensures
        members_view(r@) == buffer_desc_members(x@),
{
    let mut ms: Vec<Member> = Vec::new();
    assert(members_view(ms@) =~= Seq::<MemberView>::empty());
    put_index(&mut ms, &BYTE_LENGTH, Some(x.length));
    put_text(&mut ms, &URI, &x.uri);
    put_all(&mut ms, &x.props);
    ms
}

/// Writes the JSON objects of a list of entities.
pub fn write_buffer_descs(list: &Vec<BufferDesc>) -> (r: Vec<Json>)
    ensures
        items_view(r@) == buffer_descs_json(views(list@)),
{
    let mut out: Vec<Json> = Vec::new();
    let mut i: usize = 0;
    while i < list.len()
        invariant
            i <= list.len(),
            out.len() == i,
            forall|j: int| 0 <= j < i ==> (#[trigger] out@[j])@ == JsonView::Object(buffer_desc_members(list@[j]@)),
        decreases list.len() - i,
    {
        let ms = write_buffer_desc(&list[i]);
        proof {
            lemma_object_view(ms);
        }
        out.push(Json::Object(ms));
        i += 1;
    }
    assert(items_view(out@) =~= buffer_descs_json(views(list@)));
    out
}

/// A buffer is read back from the members it is written as, and those are
/// well formed.
pub proof fn lemma_buffer_desc_round_trip(x: BufferDescView)
    requires
        x.ok(),
    ensures
        buffer_desc_of(buffer_desc_members(x)) == Some(x),
        well_formed(JsonView::Object(buffer_desc_members(x)), (PROPS_DEPTH + 1) as nat),
    decreases x,
{
    broadcast use group_members;

    lemma_names_buffer();
    lemma_index_json(x.length);
    lemma_find_absent(x.props, Kind::Buffer, BYTE_LENGTH@);
    lemma_find_absent(x.props, Kind::Buffer, URI@);
    let typed = buffer_desc_typed(x);
    lemma_members_deeper(x.props, PROPS_DEPTH as nat, (PROPS_DEPTH + 0) as nat);
    assert(members_well_formed(typed, (PROPS_DEPTH + 0) as nat));
    lemma_object_well_formed(typed + x.props, (PROPS_DEPTH + 0) as nat);
    assert(retain(typed, Kind::Buffer) =~= Seq::<MemberView>::empty());
    lemma_retain_all(x.props, Kind::Buffer);
    assert(retain(typed + x.props, Kind::Buffer) =~= x.props);
}

/// What is read as a buffer can be written and read back.
pub proof fn lemma_buffer_desc_of_ok(ms: Seq<MemberView>)
    requires
        buffer_desc_of(ms) is Some,
    ensures
        buffer_desc_of(ms)->Some_0.ok(),
{
    lemma_retain_sound(ms, Kind::Buffer, PROPS_DEPTH as nat);
}

/// What is read as a list of entities can be written and read back.
pub proof fn lemma_buffer_descs_of_ok(items: Seq<JsonView>)
    requires
        buffer_descs_of(items) is Some,
    ensures
        forall|i: int| 0 <= i < buffer_descs_of(items)->Some_0.len() ==> (#[trigger] buffer_descs_of(items)->Some_0[i]).ok(),
{
    let list = buffer_descs_of(items)->Some_0;
    assert forall|i: int| 0 <= i < list.len() implies (#[trigger] list[i]).ok() by {
        assert(buffer_desc_of_json(items[i]) is Some);
        match items[i] {
            JsonView::Object(inner) => {
                lemma_buffer_desc_of_ok(inner);
            },
            _ => {},
        }
    }
}

/// A list of entities is read back from the JSON objects it is written
/// as, and those are well formed.
pub proof fn lemma_buffer_descs_round_trip(list: Seq<BufferDescView>)
    requires
        forall|i: int| 0 <= i < list.len() ==> (#[trigger] list[i]).ok(),
    ensures
        buffer_descs_of(buffer_descs_json(list)) == Some(list),
        forall|i: int|
            0 <= i < list.len() ==> well_formed(#[trigger] buffer_descs_json(list)[i], (PROPS_DEPTH + 1) as nat),
    decreases list,
{
    let items = buffer_descs_json(list);
    assert forall|i: int| 0 <= i < items.len() implies buffer_desc_of_json(#[trigger] items[i]) == Some(list[i])
        && well_formed(items[i], (PROPS_DEPTH + 1) as nat) by {
        lemma_buffer_desc_round_trip(list[i]);
    }
    assert(buffer_descs_of(items).unwrap() =~= list);
}

/// The members of the JSON object of the `asset` object that the codec
/// understands.
pub open spec fn asset_typed(x: AssetView) -> Seq<MemberView> {
    let ms = Seq::<MemberView>::empty();
    let ms = with_text(ms, VERSION@, Some(x.version));
    ms
}

/// The members of the JSON object of the `asset` object: what the codec
/// understands, then what is carried along.
pub open spec fn asset_members(x: AssetView) -> Seq<MemberView> {
    asset_typed(x) + x.props
}

/// The value of the `asset` object that the members `ms` denote.
pub open spec fn asset_of(ms: Seq<MemberView>) -> Option<AssetView> {
    match req_text(ms, VERSION@) {
        Some(version) => if members_well_formed(retain(ms, Kind::Asset), PROPS_DEPTH as nat) {
            Some(AssetView { version, props: retain(ms, Kind::Asset) })
        } else {
            None
        },
        None => None,
    }
}

/// The value of the `asset` object that the JSON value `v` denotes.
pub open spec fn asset_of_json(v: JsonView) -> Option<AssetView> {
    match v {
        JsonView::Object(ms) => asset_of(ms),
        _ => None,
    }
}

/// The JSON object of an optional entity.
pub open spec fn asset_json(x: Option<AssetView>) -> Option<JsonView> {
    match x {
        Some(y) => Some(JsonView::Object(asset_members(y))),
        None => None,
    }
}

/// The entity under `key`: none where the member is absent.
pub open spec fn opt_asset(ms: Seq<MemberView>, key: Seq<u8>) -> Option<Option<AssetView>> {
    match find(ms, key) {
        None => Some(None),
        Some(v) => match asset_of_json(v) {
            Some(y) => Some(Some(y)),
            None => None,
        },
    }
}

/// The entity under `key`, which must be there.
pub open spec fn req_asset(ms: Seq<MemberView>, key: Seq<u8>) -> Option<AssetView> {
    match opt_asset(ms, key) {
        Some(Some(y)) => Some(y),
        _ => None,
    }
}

/// Reads the `asset` object from the members of its JSON object.
pub fn read_asset(ms: &Vec<Member>) -> (r: Option<Asset>)
    ensures
        match r {
            Some(x) => asset_of(members_view(ms@)) == Some(x@) && x@.ok(),
            None => asset_of(members_view(ms@)) is None,
        },
{
    let version = match get_req_text(ms, &VERSION) {
        Some(v) => v,
        None => {
            return None;
        },
    };
    let props = keep(ms, Kind::Asset);
    if !check_members(&props, PROPS_DEPTH) {
        return None;
    }
    proof {
        lemma_retain_sound(members_view(ms@), Kind::Asset, PROPS_DEPTH as nat);
    }
    Some(Asset { version, props })
}

/// Reads the optional entity under `key`.
pub fn get_asset(ms: &Vec<Member>, key: &[u8]) -> (r: Option<Option<Asset>>)
    ensures
        match r {
            Some(x) => opt_asset(members_view(ms@), key@) == Some(opt_view(x)) && (x matches Some(y) ==> y@.ok()),
            None => opt_asset(members_view(ms@), key@) is None,
        },
{
    match lookup(ms, key) {
        None => Some(None),
        Some(Json::Object(inner)) => {
            proof {
                lemma_object_view(*inner);
            }
            match read_asset(inner) {
                Some(y) => Some(Some(y)),
                None => None,
            }
        },
        Some(_) => None,
    }
}

/// Reads the entity under `key`, which must be there.
pub fn get_req_asset(ms: &Vec<Member>, key: &[u8]) -> (r: Option<Asset>)
    ensures
        match r {
            Some(x) => req_asset(members_view(ms@), key@) == Some(x@) && x@.ok(),
            None => req_asset(members_view(ms@), key@) is None,
        },
{
    match get_asset(ms, key) {
        Some(Some(y)) => Some(y),
        _ => None,
    }
}

/// Writes the members of the JSON object of the `asset` object.
pub fn write_asset(x: &Asset) -> (r: Vec<Member>)
    ensures
        members_view(r@) == asset_members(x@),
{
    let mut ms: Vec<Member> = Vec::new();
    assert(members_view(ms@) =~= Seq::<MemberView>::empty());
    put(&mut ms, &VERSION, Json::Text(clone_bytes(&x.version)));
    put_all(&mut ms, &x.props);
    ms
}

/// The `asset` object is read back from the members it is written as, and
/// those are well formed.
pub proof fn lemma_asset_round_trip(x: AssetView)
    requires
        x.ok(),
    ensures
        asset_of(asset_members(x)) == Some(x),
        well_formed(JsonView::Object(asset_members(x)), (PROPS_DEPTH + 1) as nat),
    decreases x,
{
    broadcast use group_members;

    lemma_names_asset();
    lemma_find_absent(x.props, Kind::Asset, VERSION@);
    let typed = asset_typed(x);
    lemma_members_deeper(x.props, PROPS_DEPTH as nat, (PROPS_DEPTH + 0) as nat);
    assert(members_well_formed(typed, (PROPS_DEPTH + 0) as nat));
    lemma_object_well_formed(typed + x.props, (PROPS_DEPTH + 0) as nat);
    assert(retain(typed, Kind::Asset) =~= Seq::<MemberView>::empty());
    lemma_retain_all(x.props, Kind::Asset);
    assert(retain(typed + x.props, Kind::Asset) =~= x.props);
}

/// What is read as the `asset` object can be written and read back.
pub proof fn lemma_asset_of_ok(ms: Seq<MemberView>)
    requires
        asset_of(ms) is Some,
    ensures
        asset_of(ms)->Some_0.ok(),
{
    lemma_retain_sound(ms, Kind::Asset, PROPS_DEPTH as nat);
}

/// The members of the JSON object of a buffer view that the codec understands.
pub open spec fn buffer_view_typed(x: BufferViewView) -> Seq<MemberView> {
    let ms = Seq::<MemberView>::empty();
    let ms = with_index(ms, BUFFER@, Some(x.buffer));
    let ms = with_index(ms, BYTE_OFFSET@, nonzero(x.offset));
    let ms = with_index(ms, BYTE_LENGTH@, Some(x.length));
    let ms = with_index(ms, BYTE_STRIDE@, x.stride);
    ms
}

/// The members of the JSON object of a buffer view: what the codec understands,
/// then what is carried along.
pub open spec fn buffer_view_members(x: BufferViewView) -> Seq<MemberView> {
    buffer_view_typed(x) + x.props
}

/// The value of a buffer view that the members `ms` denote.
pub open spec fn buffer_view_of(ms: Seq<MemberView>) -> Option<BufferViewView> {
    match (req_index(ms, BUFFER@), def_index(ms, BYTE_OFFSET@), req_index(ms, BYTE_LENGTH@), opt_index(ms, BYTE_STRIDE@)) {
        (Some(buffer), Some(offset), Some(length), Some(stride)) => if members_well_formed(retain(ms, Kind::View), PROPS_DEPTH as nat) {
            Some(BufferViewView { buffer, offset, length, stride, props: retain(ms, Kind::View) })
        } else {
            None
        },
        _ => None,
    }
}

/// The value of a buffer view that the JSON value `v` denotes.
pub open spec fn buffer_view_of_json(v: JsonView) -> Option<BufferViewView> {
    match v {
        JsonView::Object(ms) => buffer_view_of(ms),
        _ => None,
    }
}

/// The values that the items denote, if every one of them denotes one.
pub open spec fn buffer_views_of(items: Seq<JsonView>) -> Option<Seq<BufferViewView>> {
    if forall|i: int| 0 <= i < items.len() ==> buffer_view_of_json(#[trigger] items[i]) is Some {
        Some(Seq::new(items.len(), |i: int| buffer_view_of_json(items[i]).unwrap()))
    } else {
        None
    }
}

/// The JSON objects of a list of entities.
pub open spec fn buffer_views_json(list: Seq<BufferViewView>) -> Seq<JsonView> {
    Seq::new(list.len(), |i: int| JsonView::Object(buffer_view_members(list[i])))
}

/// The entities under `key`: none where the member is absent.
pub open spec fn buffer_views_under(ms: Seq<MemberView>, key: Seq<u8>) -> Option<Seq<BufferViewView>> {
    match array(ms, key) {
        Some(items) => buffer_views_of(items),
        None => None,
    }
}

/// Reads a buffer view from the members of its JSON object.
pub fn read_buffer_view(ms: &Vec<Member>) -> (r: Option<BufferView>)
    ensures
        match r {
            Some(x) => buffer_view_of(members_view(ms@)) == Some(x@) && x@.ok(),
            None => buffer_view_of(members_view(ms@)) is None,
        },
{
    let buffer = match get_req_index(ms, &BUFFER) {
        Some(v) => v,
        None => {
            return None;
        },
    };
    let offset = match get_def_index(ms, &BYTE_OFFSET) {
        Some(v) => v,
        None => {
            return None;
        },
    };
    let length = match get_req_index(ms, &BYTE_LENGTH) {
        Some(v) => v,
        None => {
            return None;
        },
    };
    let stride = match get_index(ms, &BYTE_STRIDE) {
        Some(v) => v,
        None => {
            return None;
        },
    };
    let props = keep(ms, Kind::View);
    if !check_members(&props, PROPS_DEPTH) {
        return None;
    }
    proof {
        lemma_retain_sound(members_view(ms@), Kind::View, PROPS_DEPTH as nat);
    }
    Some(BufferView { buffer, offset, length, stride, props })
}

/// Reads a list of entities from the items of a JSON array.
pub fn read_buffer_views(items: &Vec<Json>) -> (r: Option<Vec<BufferView>>)
    ensures
        match r {
            Some(list) => buffer_views_of(items_view(items@)) == Some(views(list@)) && forall|i: int|
                0 <= i < list.len() ==> (#[trigger] views(list@)[i]).ok(),
            None => buffer_views_of(items_view(items@)) is None,
        },
{
    let ghost iv = items_view(items@);
    let mut out: Vec<BufferView> = Vec::new();
    let mut i: usize = 0;
    while i < items.len()
        invariant
            i <= items.len(),
            iv == items_view(items@),
            out.len() == i,
            forall|j: int| 0 <= j < i ==> buffer_view_of_json(#[trigger] iv[j]) == Some(out@[j]@),
            forall|j: int| 0 <= j < i ==> (#[trigger] out@[j])@.ok(),
        decreases items.len() - i,
    {
        assert(iv[i as int] == items@[i as int]@);
        let found = match &items[i] {
            Json::Object(ms) => {
                proof {
                    lemma_object_view(*ms);
                }
                read_buffer_view(ms)
            },
            _ => None,
        };
        match found {
            Some(x) => {
                out.push(x);
            },
            None => {
                assert(iv.len() == items.len());
                assert(buffer_view_of_json(iv[i as int]) is None);
                return None;
            },
        }
        i += 1;
    }
    assert(buffer_views_of(iv).unwrap() =~= views(out@));
    Some(out)
}

/// Reads the entities under `key`.
pub fn get_buffer_views(ms: &Vec<Member>, key: &[u8]) -> (r: Option<Vec<BufferView>>)
    ensures
        match r {
            Some(list) => buffer_views_under(members_view(ms@), key@) == Some(views(list@)) && forall|i: int|
                0 <= i < list.len() ==> (#[trigger] views(list@)[i]).ok(),
            None => buffer_views_under(members_view(ms@), key@) is None,
        },
{
    match get_array(ms, key) {
        Some(Some(items)) => read_buffer_views(items),
        Some(None) => {
            let out: Vec<BufferView> = Vec::new();
            assert(buffer_views_of(Seq::<JsonView>::empty()).unwrap() =~= views(out@));
            Some(out)
        },
        None => None,
    }
}

/// Writes the members of the JSON object of a buffer view.
pub fn write_buffer_view(x: &BufferView) -> (r: Vec<Member>)
    ensures
        members_view(r@) == buffer_view_members(x@),
{
    let mut ms: Vec<Member> = Vec::new();
    assert(members_view(ms@) =~= Seq::<MemberView>::empty());
    put_index(&mut ms, &BUFFER, Some(x.buffer));
    put_index(
        &mut ms,
        &BYTE_OFFSET,
        if x.offset == 0 {
            None
        } else {
            Some(x.offset)
        },
    );
    put_index(&mut ms, &BYTE_LENGTH, Some(x.length));
    put_index(&mut ms, &BYTE_STRIDE, x.stride);
    put_all(&mut ms, &x.props);
    ms
}

/// Writes the JSON objects of a list of entities.
pub fn write_buffer_views(list: &Vec<BufferView>) -> (r: Vec<Json>)
    ensures
        items_view(r@) == buffer_views_json(views(list@)),
{
    let mut out: Vec<Json> = Vec::new();
    let mut i: usize = 0;
    while i < list.len()
        invariant
            i <= list.len(),
            out.len() == i,
            forall|j: int| 0 <= j < i ==> (#[trigger] out@[j])@ == JsonView::Object(buffer_view_members(list@[j]@)),
        decreases list.len() - i,
    {
        let ms = write_buffer_view(&list[i]);
        proof {
            lemma_object_view(ms);
        }
        out.push(Json::Object(ms));
        i += 1;
    }
    assert(items_view(out@) =~= buffer_views_json(views(list@)));
    out
}

/// A buffer view is read back from the members it is written as, and those are
/// well formed.
pub proof fn lemma_buffer_view_round_trip(x: BufferViewView)
    requires
        x.ok(),
    ensures
        buffer_view_of(buffer_view_members(x)) == Some(x),
        well_formed(JsonView::Object(buffer_view_members(x)), (PROPS_DEPTH + 1) as nat),
    decreases x,
{
    broadcast use group_members;

    lemma_names_view();
    lemma_index_json(x.buffer);
    lemma_find_absent(x.props, Kind::View, BUFFER@);
    lemma_index_json(x.offset);
    lemma_find_absent(x.props, Kind::View, BYTE_OFFSET@);
    lemma_index_json(x.length);
    lemma_find_absent(x.props, Kind::View, BYTE_LENGTH@);
    if let Some(n) = x.stride {
        lemma_index_json(n);
    }
    lemma_find_absent(x.props, Kind::View, BYTE_STRIDE@);
    let typed = buffer_view_typed(x);
    lemma_members_deeper(x.props, PROPS_DEPTH as nat, (PROPS_DEPTH + 0) as nat);
    assert(members_well_formed(typed, (PROPS_DEPTH + 0) as nat));
    lemma_object_well_formed(typed + x.props, (PROPS_DEPTH + 0) as nat);
    assert(retain(typed, Kind::View) =~= Seq::<MemberView>::empty());
    lemma_retain_all(x.props, Kind::View);
    assert(retain(typed + x.props, Kind::View) =~= x.props);
}

/// What is read as a buffer view can be written and read back.
pub proof fn lemma_buffer_view_of_ok(ms: Seq<MemberView>)
    requires
        buffer_view_of(ms) is Some,
    ensures
        buffer_view_of(ms)->Some_0.ok(),
{
    lemma_retain_sound(ms, Kind::View, PROPS_DEPTH as nat);
}

/// What is read as a list of entities can be written and read back.
pub proof fn lemma_buffer_views_of_ok(items: Seq<JsonView>)
    requires
        buffer_views_of(items) is Some,
    ensures
        forall|i: int| 0 <= i < buffer_views_of(items)->Some_0.len() ==> (#[trigger] buffer_views_of(items)->Some_0[i]).ok(),
{
    let list = buffer_views_of(items)->Some_0;
    assert forall|i: int| 0 <= i < list.len() implies (#[trigger] list[i]).ok() by {
        assert(buffer_view_of_json(items[i]) is Some);
        match items[i] {
            JsonView::Object(inner) => {
                lemma_buffer_view_of_ok(inner);
            },
            _ => {},
        }
    }
}

/// A list of entities is read back from the JSON objects it is written
/// as, and those are well formed.
pub proof fn lemma_buffer_views_round_trip(list: Seq<BufferViewView>)
    requires
        forall|i: int| 0 <= i < list.len() ==> (#[trigger] list[i]).ok(),
    ensures
        buffer_views_of(buffer_views_json(list)) == Some(list),
        forall|i: int|
            0 <= i < list.len() ==> well_formed(#[trigger] buffer_views_json(list)[i], (PROPS_DEPTH + 1) as nat),
    decreases list,
{
    let items = buffer_views_json(list);
    assert forall|i: int| 0 <= i < items.len() implies buffer_view_of_json(#[trigger] items[i]) == Some(list[i])
        && well_formed(items[i], (PROPS_DEPTH + 1) as nat) by {
        lemma_buffer_view_round_trip(list[i]);
    }
    assert(buffer_views_of(items).unwrap() =~= list);
}

/// The members of the JSON object of the top-level object that the codec
/// understands.
#[verifier::opaque]
pub open spec fn root_typed(x: RootView) -> Seq<MemberView> {
    let ms = Seq::<MemberView>::empty();
    let ms = with_member(ms, ASSET@, asset_json(Some(x.asset)));
    let ms = with_index(ms, SCENE@, x.scene);
    let ms = with_array(ms, SCENES@, scenes_json(x.scenes));
    let ms = with_array(ms, NODES@, nodes_json(x.nodes));
    let ms = with_array(ms, MESHES@, meshes_json(x.meshes));
    let ms = with_array(ms, MATERIALS@, materials_json(x.materials));
    let ms = with_array(ms, TEXTURES@, textures_json(x.textures));
    let ms = with_array(ms, IMAGES@, images_json(x.images));
    let ms = with_array(ms, SAMPLERS@, samplers_json(x.samplers));
    let ms = with_array(ms, ACCESSORS@, accessors_json(x.accessors));
    let ms = with_array(ms, BUFFER_VIEWS@, buffer_views_json(x.views));
    let ms = with_array(ms, BUFFERS@, buffer_descs_json(x.buffers));
    let ms = with_array(ms, EXTENSIONS_USED@, texts_json(x.extensions_used));
    let ms = with_array(ms, EXTENSIONS_REQUIRED@, texts_json(x.extensions_required));
    let ms = with_object(ms, EXTENSIONS@, x.extensions);
    ms
}

/// The members of the JSON object of the top-level object: what the codec
/// understands, then what is carried along.
pub open spec fn root_members(x: RootView) -> Seq<MemberView> {
    root_typed(x) + x.props
}

/// The value of the top-level object that the members `ms` denote.
#[verifier::opaque]
pub open spec fn root_of(ms: Seq<MemberView>) -> Option<RootView> {
    match (req_asset(ms, ASSET@), opt_index(ms, SCENE@), scenes_under(ms, SCENES@), nodes_under(ms, NODES@), meshes_under(ms, MESHES@), materials_under(ms, MATERIALS@), textures_under(ms, TEXTURES@), images_under(ms, IMAGES@), samplers_under(ms, SAMPLERS@), accessors_under(ms, ACCESSORS@), buffer_views_under(ms, BUFFER_VIEWS@), buffer_descs_under(ms, BUFFERS@), text_list(ms, EXTENSIONS_USED@), text_list(ms, EXTENSIONS_REQUIRED@), payloads(ms, EXTENSIONS@)) {
        (Some(asset), Some(scene), Some(scenes), Some(nodes), Some(meshes), Some(materials), Some(textures), Some(images), Some(samplers), Some(accessors), Some(views), Some(buffers), Some(extensions_used), Some(extensions_required), Some(extensions)) => if members_well_formed(retain(ms, Kind::Root), PROPS_DEPTH as nat) {
            Some(RootView { asset, scene, scenes, nodes, meshes, materials, textures, images, samplers, accessors, views, buffers, extensions_used, extensions_required, extensions, props: retain(ms, Kind::Root) })
        } else {
            None
        },
        _ => None,
    }
}

/// Reads the top-level object from the members of its JSON object.
pub fn read_root(ms: &Vec<Member>) -> (r: Option<Root>)
    ensures
        match r {
            Some(x) => root_of(members_view(ms@)) == Some(x@) && x@.ok(),
            None => root_of(members_view(ms@)) is None,
        },
{
    proof {
        reveal(root_of);
        reveal(RootView::ok);
    }
    let asset = match get_req_asset(ms, &ASSET) {
        Some(v) => v,
        None => {
            return None;
        },
    };
    let scene = match get_index(ms, &SCENE) {
        Some(v) => v,
        None => {
            return None;
        },
    };
    let scenes = match get_scenes(ms, &SCENES) {
        Some(v) => v,
        None => {
            return None;
        },
    };
    let nodes = match get_nodes(ms, &NODES) {
        Some(v) => v,
        None => {
            return None;
        },
    };
    let meshes = match get_meshes(ms, &MESHES) {
        Some(v) => v,
        None => {
            return None;
        },
    };
    let materials = match get_materials(ms, &MATERIALS) {
        Some(v) => v,
        None => {
            return None;
        },
    };
    let textures = match get_textures(ms, &TEXTURES) {
        Some(v) => v,
        None => {
            return None;
        },
    };
    let images = match get_images(ms, &IMAGES) {
        Some(v) => v,
        None => {
            return None;
        },
    };
    let samplers = match get_samplers(ms, &SAMPLERS) {
        Some(v) => v,
        None => {
            return None;
        },
    };
    let accessors = match get_accessors(ms, &ACCESSORS) {
        Some(v) => v,
        None => {
            return None;
        },
    };
    let views = match get_buffer_views(ms, &BUFFER_VIEWS) {
        Some(v) => v,
        None => {
            return None;
        },
    };
    let buffers = match get_buffer_descs(ms, &BUFFERS) {
        Some(v) => v,
        None => {
            return None;
        },
    };
    let extensions_used = match get_text_list(ms, &EXTENSIONS_USED) {
        Some(v) => v,
        None => {
            return None;
        },
    };
    let extensions_required = match get_text_list(ms, &EXTENSIONS_REQUIRED) {
        Some(v) => v,
        None => {
            return None;
        },
    };
    let extensions = match get_payloads(ms, &EXTENSIONS) {
        Some(v) => v,
        None => {
            return None;
        },
    };
    let props = keep(ms, Kind::Root);
    if !check_members(&props, PROPS_DEPTH) {
        return None;
    }
    proof {
        lemma_retain_sound(members_view(ms@), Kind::Root, PROPS_DEPTH as nat);
    }
    Some(Root { asset, scene, scenes, nodes, meshes, materials, textures, images, samplers, accessors, views, buffers, extensions_used, extensions_required, extensions, props })
}

/// Writes the members of the JSON object of the top-level object.
pub fn write_root(x: &Root) -> (r: Vec<Member>)
    ensures
        members_view(r@) == root_members(x@),
{
    let mut ms: Vec<Member> = Vec::new();
    assert(members_view(ms@) =~= Seq::<MemberView>::empty());
    proof {
        reveal(root_typed);
    }
    let inner_asset = write_asset(&x.asset);
    proof {
        lemma_object_view(inner_asset);
    }
    put(&mut ms, &ASSET, Json::Object(inner_asset));
    put_index(&mut ms, &SCENE, x.scene);
    put_array(&mut ms, &SCENES, write_scenes(&x.scenes));
    put_array(&mut ms, &NODES, write_nodes(&x.nodes));
    put_array(&mut ms, &MESHES, write_meshes(&x.meshes));
    put_array(&mut ms, &MATERIALS, write_materials(&x.materials));
    put_array(&mut ms, &TEXTURES, write_textures(&x.textures));
    put_array(&mut ms, &IMAGES, write_images(&x.images));
    put_array(&mut ms, &SAMPLERS, write_samplers(&x.samplers));
    put_array(&mut ms, &ACCESSORS, write_accessors(&x.accessors));
    put_array(&mut ms, &BUFFER_VIEWS, write_buffer_views(&x.views));
    put_array(&mut ms, &BUFFERS, write_buffer_descs(&x.buffers));
    put_array(&mut ms, &EXTENSIONS_USED, texts_value(&x.extensions_used));
    put_array(&mut ms, &EXTENSIONS_REQUIRED, texts_value(&x.extensions_required));
    put_object(&mut ms, &EXTENSIONS, duplicate_members(&x.extensions));
    put_all(&mut ms, &x.props);
    ms
}

/// What stands under `asset` among the members the codec writes for
/// the top-level object.
proof fn lemma_root_find_asset(x: RootView)
    ensures
        find(root_typed(x), ASSET@) == asset_json(Some(x.asset)),
{
    broadcast use lemma_find_with_member;

    reveal(root_typed);
    lemma_names_root();
}

/// What the codec writes under `asset` for the top-level object is well
/// formed and is read back.
proof fn lemma_root_value_asset(x: RootView)
    requires
        x.ok(),
    ensures
        (asset_json(Some(x.asset))) matches Some(v) ==> well_formed(v, (PROPS_DEPTH + 4) as nat),
        forall|ms: Seq<MemberView>|
            find(ms, ASSET@) == (asset_json(Some(x.asset))) ==> #[trigger] req_asset(ms, ASSET@) == Some(x.asset),
{
    reveal(RootView::ok);
    lemma_asset_round_trip(x.asset);
    lemma_well_formed_deeper(
        JsonView::Object(asset_members(x.asset)),
        (PROPS_DEPTH + 1) as nat,
        (PROPS_DEPTH + 4) as nat,
    );
}

/// What stands under `scene` among the members the codec writes for
/// the top-level object.
proof fn lemma_root_find_scene(x: RootView)
    ensures
        find(root_typed(x), SCENE@) == match x.scene {
        Some(n) => Some(index_json(n)),
        None => None,
    },
{
    broadcast use lemma_find_with_member;

    reveal(root_typed);
    lemma_names_root();
}

/// What the codec writes under `scene` for the top-level object is well
/// formed and is read back.
proof fn lemma_root_value_scene(x: RootView)
    requires
        x.ok(),
    ensures
        (match x.scene {
                Some(n) => Some(index_json(n)),
                None => None,
            }) matches Some(v) ==> well_formed(v, (PROPS_DEPTH + 4) as nat),
        forall|ms: Seq<MemberView>|
            find(ms, SCENE@) == (match x.scene {
                Some(n) => Some(index_json(n)),
                None => None,
            }) ==> #[trigger] opt_index(ms, SCENE@) == Some(x.scene),
{
    reveal(RootView::ok);
    if let Some(n) = x.scene {
        lemma_index_json(n);
    }
}

/// What stands under `scenes` among the members the codec writes for
/// the top-level object.
proof fn lemma_root_find_scenes(x: RootView)
    ensures
        find(root_typed(x), SCENES@) == if x.scenes.len() == 0 {
        None
    } else {
        Some(JsonView::Array(scenes_json(x.scenes)))
    },
{
    broadcast use lemma_find_with_member;

    reveal(root_typed);
    lemma_names_root();
}

/// What the codec writes under `scenes` for the top-level object is well
/// formed and is read back.
proof fn lemma_root_value_scenes(x: RootView)
    requires
        x.ok(),
    ensures
        (if x.scenes.len() == 0 {
                None
            } else {
                Some(JsonView::Array(scenes_json(x.scenes)))
            }) matches Some(v) ==> well_formed(v, (PROPS_DEPTH + 4) as nat),
        forall|ms: Seq<MemberView>|
            find(ms, SCENES@) == (if x.scenes.len() == 0 {
                None
            } else {
                Some(JsonView::Array(scenes_json(x.scenes)))
            }) ==> #[trigger] scenes_under(ms, SCENES@) == Some(x.scenes),
{
    reveal(RootView::ok);
    lemma_scenes_round_trip(x.scenes);
    lemma_array_well_formed(scenes_json(x.scenes), (PROPS_DEPTH + 1) as nat);
    lemma_well_formed_deeper(
        JsonView::Array(scenes_json(x.scenes)),
        (PROPS_DEPTH + 2) as nat,
        (PROPS_DEPTH + 4) as nat,
    );
    if x.scenes.len() == 0 {
        assert(x.scenes =~= Seq::<SceneView>::empty());
        assert(scenes_of(Seq::<JsonView>::empty()).unwrap() =~= Seq::<SceneView>::empty());
    }
}

/// What stands under `nodes` among the members the codec writes for
/// the top-level object.
proof fn lemma_root_find_nodes(x: RootView)
    ensures
        find(root_typed(x), NODES@) == if x.nodes.len() == 0 {
        None
    } else {
        Some(JsonView::Array(nodes_json(x.nodes)))
    },
{
    broadcast use lemma_find_with_member;

    reveal(root_typed);
    lemma_names_root();
}

/// What the codec writes under `nodes` for the top-level object is well
/// formed and is read back.
proof fn lemma_root_value_nodes(x: RootView)
    requires
        x.ok(),
    ensures
        (if x.nodes.len() == 0 {
                None
            } else {
                Some(JsonView::Array(nodes_json(x.nodes)))
            }) matches Some(v) ==> well_formed(v, (PROPS_DEPTH + 4) as nat),
        forall|ms: Seq<MemberView>|
            find(ms, NODES@) == (if x.nodes.len() == 0 {
                None
            } else {
                Some(JsonView::Array(nodes_json(x.nodes)))
            }) ==> #[trigger] nodes_under(ms, NODES@) == Some(x.nodes),
{
    reveal(RootView::ok);
    lemma_nodes_round_trip(x.nodes);
    lemma_array_well_formed(nodes_json(x.nodes), (PROPS_DEPTH + 2) as nat);
    lemma_well_formed_deeper(
        JsonView::Array(nodes_json(x.nodes)),
        (PROPS_DEPTH + 3) as nat,
        (PROPS_DEPTH + 4) as nat,
    );
    if x.nodes.len() == 0 {
        assert(x.nodes =~= Seq::<NodeView>::empty());
        assert(nodes_of(Seq::<JsonView>::empty()).unwrap() =~= Seq::<NodeView>::empty());
    }
}

/// What stands under `meshes` among the members the codec writes for
/// the top-level object.
proof fn lemma_root_find_meshes(x: RootView)
    ensures
        find(root_typed(x), MESHES@) == if x.meshes.len() == 0 {
        None
    } else {
        Some(JsonView::Array(meshes_json(x.meshes)))
    },
{
    broadcast use lemma_find_with_member;

    reveal(root_typed);
    lemma_names_root();
}

/// What the codec writes under `meshes` for the top-level object is well
/// formed and is read back.
proof fn lemma_root_value_meshes(x: RootView)
    requires
        x.ok(),
    ensures
        (if x.meshes.len() == 0 {
                None
            } else {
                Some(JsonView::Array(meshes_json(x.meshes)))
            }) matches Some(v) ==> well_formed(v, (PROPS_DEPTH + 4) as nat),
        forall|ms: Seq<MemberView>|
            find(ms, MESHES@) == (if x.meshes.len() == 0 {
                None
            } else {
                Some(JsonView::Array(meshes_json(x.meshes)))
            }) ==> #[trigger] meshes_under(ms, MESHES@) == Some(x.meshes),
{
    reveal(RootView::ok);
    lemma_meshes_round_trip(x.meshes);
    lemma_array_well_formed(meshes_json(x.meshes), (PROPS_DEPTH + 3) as nat);
    lemma_well_formed_deeper(
        JsonView::Array(meshes_json(x.meshes)),
        (PROPS_DEPTH + 4) as nat,
        (PROPS_DEPTH + 4) as nat,
    );
    if x.meshes.len() == 0 {
        assert(x.meshes =~= Seq::<MeshView>::empty());
        assert(meshes_of(Seq::<JsonView>::empty()).unwrap() =~= Seq::<MeshView>::empty());
    }
}

/// What stands under `materials` among the members the codec writes for
/// the top-level object.
proof fn lemma_root_find_materials(x: RootView)
    ensures
        find(root_typed(x), MATERIALS@) == if x.materials.len() == 0 {
        None
    } else {
        Some(JsonView::Array(materials_json(x.materials)))
    },
{
    broadcast use lemma_find_with_member;

    reveal(root_typed);
    lemma_names_root();
}

/// What the codec writes under `materials` for the top-level object is well
/// formed and is read back.
proof fn lemma_root_value_materials(x: RootView)
    requires
        x.ok(),
    ensures
        (if x.materials.len() == 0 {
                None
            } else {
                Some(JsonView::Array(materials_json(x.materials)))
            }) matches Some(v) ==> well_formed(v, (PROPS_DEPTH + 4) as nat),
        forall|ms: Seq<MemberView>|
            find(ms, MATERIALS@) == (if x.materials.len() == 0 {
                None
            } else {
                Some(JsonView::Array(materials_json(x.materials)))
            }) ==> #[trigger] materials_under(ms, MATERIALS@) == Some(x.materials),
{
    reveal(RootView::ok);
    lemma_materials_round_trip(x.materials);
    lemma_array_well_formed(materials_json(x.materials), (PROPS_DEPTH + 3) as nat);
    lemma_well_formed_deeper(
        JsonView::Array(materials_json(x.materials)),
        (PROPS_DEPTH + 4) as nat,
        (PROPS_DEPTH + 4) as nat,
    );
    if x.materials.len() == 0 {
        assert(x.materials =~= Seq::<MaterialView>::empty());
        assert(materials_of(Seq::<JsonView>::empty()).unwrap() =~= Seq::<MaterialView>::empty());
    }
}

/// What stands under `textures` among the members the codec writes for
/// the top-level object.
proof fn lemma_root_find_textures(x: RootView)
    ensures
        find(root_typed(x), TEXTURES@) == if x.textures.len() == 0 {
        None
    } else {
        Some(JsonView::Array(textures_json(x.textures)))
    },
{
    broadcast use lemma_find_with_member;

    reveal(root_typed);
    lemma_names_root();
}

/// What the codec writes under `textures` for the top-level object is well
/// formed and is read back.
proof fn lemma_root_value_textures(x: RootView)
    requires
        x.ok(),
    ensures
        (if x.textures.len() == 0 {
                None
            } else {
                Some(JsonView::Array(textures_json(x.textures)))
            }) matches Some(v) ==> well_formed(v, (PROPS_DEPTH + 4) as nat),
        forall|ms: Seq<MemberView>|
            find(ms, TEXTURES@) == (if x.textures.len() == 0 {
                None
            } else {
                Some(JsonView::Array(textures_json(x.textures)))
            }) ==> #[trigger] textures_under(ms, TEXTURES@) == Some(x.textures),
{
    reveal(RootView::ok);
    lemma_textures_round_trip(x.textures);
    lemma_array_well_formed(textures_json(x.textures), (PROPS_DEPTH + 2) as nat);
    lemma_well_formed_deeper(
        JsonView::Array(textures_json(x.textures)),
        (PROPS_DEPTH + 3) as nat,
        (PROPS_DEPTH + 4) as nat,
    );
    if x.textures.len() == 0 {
        assert(x.textures =~= Seq::<TextureView>::empty());
        assert(textures_of(Seq::<JsonView>::empty()).unwrap() =~= Seq::<TextureView>::empty());
    }
}

/// What stands under `images` among the members the codec writes for
/// the top-level object.
proof fn lemma_root_find_images(x: RootView)
    ensures
        find(root_typed(x), IMAGES@) == if x.images.len() == 0 {
        None
    } else {
        Some(JsonView::Array(images_json(x.images)))
    },
{
    broadcast use lemma_find_with_member;

    reveal(root_typed);
    lemma_names_root();
}

/// What the codec writes under `images` for the top-level object is well
/// formed and is read back.
proof fn lemma_root_value_images(x: RootView)
    requires
        x.ok(),
    ensures
        (if x.images.len() == 0 {
                None
            } else {
                Some(JsonView::Array(images_json(x.images)))
            }) matches Some(v) ==> well_formed(v, (PROPS_DEPTH + 4) as nat),
        forall|ms: Seq<MemberView>|
            find(ms, IMAGES@) == (if x.images.len() == 0 {
                None
            } else {
                Some(JsonView::Array(images_json(x.images)))
            }) ==> #[trigger] images_under(ms, IMAGES@) == Some(x.images),
{
    reveal(RootView::ok);
    lemma_images_round_trip(x.images);
    lemma_array_well_formed(images_json(x.images), (PROPS_DEPTH + 1) as nat);
    lemma_well_formed_deeper(
        JsonView::Array(images_json(x.images)),
        (PROPS_DEPTH + 2) as nat,
        (PROPS_DEPTH + 4) as nat,
    );
    if x.images.len() == 0 {
        assert(x.images =~= Seq::<ImageView>::empty());
        assert(images_of(Seq::<JsonView>::empty()).unwrap() =~= Seq::<ImageView>::empty());
    }
}

/// What stands under `samplers` among the members the codec writes for
/// the top-level object.
proof fn lemma_root_find_samplers(x: RootView)
    ensures
        find(root_typed(x), SAMPLERS@) == if x.samplers.len() == 0 {
        None
    } else {
        Some(JsonView::Array(samplers_json(x.samplers)))
    },
{
    broadcast use lemma_find_with_member;

    reveal(root_typed);
    lemma_names_root();
}

/// What the codec writes under `samplers` for the top-level object is well
/// formed and is read back.
proof fn lemma_root_value_samplers(x: RootView)
    requires
        x.ok(),
    ensures
        (if x.samplers.len() == 0 {
                None
            } else {
                Some(JsonView::Array(samplers_json(x.samplers)))
            }) matches Some(v) ==> well_formed(v, (PROPS_DEPTH + 4) as nat),
        forall|ms: Seq<MemberView>|
            find(ms, SAMPLERS@) == (if x.samplers.len() == 0 {
                None
            } else {
                Some(JsonView::Array(samplers_json(x.samplers)))
            }) ==> #[trigger] samplers_under(ms, SAMPLERS@) == Some(x.samplers),
{
    reveal(RootView::ok);
    lemma_samplers_round_trip(x.samplers);
    lemma_array_well_formed(samplers_json(x.samplers), (PROPS_DEPTH + 1) as nat);
    lemma_well_formed_deeper(
        JsonView::Array(samplers_json(x.samplers)),
        (PROPS_DEPTH + 2) as nat,
        (PROPS_DEPTH + 4) as nat,
    );
    if x.samplers.len() == 0 {
        assert(x.samplers =~= Seq::<SamplerView>::empty());
        assert(samplers_of(Seq::<JsonView>::empty()).unwrap() =~= Seq::<SamplerView>::empty());
    }
}

/// What stands under `accessors` among the members the codec writes for
/// the top-level object.
proof fn lemma_root_find_accessors(x: RootView)
    ensures
        find(root_typed(x), ACCESSORS@) == if x.accessors.len() == 0 {
        None
    } else {
        Some(JsonView::Array(accessors_json(x.accessors)))
    },
{
    broadcast use lemma_find_with_member;

    reveal(root_typed);
    lemma_names_root();
}

/// What the codec writes under `accessors` for the top-level object is well
/// formed and is read back.
proof fn lemma_root_value_accessors(x: RootView)
    requires
        x.ok(),
    ensures
        (if x.accessors.len() == 0 {
                None
            } else {
                Some(JsonView::Array(accessors_json(x.accessors)))
            }) matches Some(v) ==> well_formed(v, (PROPS_DEPTH + 4) as nat),
        forall|ms: Seq<MemberView>|
            find(ms, ACCESSORS@) == (if x.accessors.len() == 0 {
                None
            } else {
                Some(JsonView::Array(accessors_json(x.accessors)))
            }) ==> #[trigger] accessors_under(ms, ACCESSORS@) == Some(x.accessors),
{
    reveal(RootView::ok);
    lemma_accessors_round_trip(x.accessors);
    lemma_array_well_formed(accessors_json(x.accessors), (PROPS_DEPTH + 1) as nat);
    lemma_well_formed_deeper(
        JsonView::Array(accessors_json(x.accessors)),
        (PROPS_DEPTH + 2) as nat,
        (PROPS_DEPTH + 4) as nat,
    );
    if x.accessors.len() == 0 {
        assert(x.accessors =~= Seq::<AccessorView>::empty());
        assert(accessors_of(Seq::<JsonView>::empty()).unwrap() =~= Seq::<AccessorView>::empty());
    }
}

/// What stands under `bufferViews` among the members the codec writes for
/// the top-level object.
proof fn lemma_root_find_views(x: RootView)
    ensures
        find(root_typed(x), BUFFER_VIEWS@) == if x.views.len() == 0 {
        None
    } else {
        Some(JsonView::Array(buffer_views_json(x.views)))
    },
{
    broadcast use lemma_find_with_member;

    reveal(root_typed);
    lemma_names_root();
}

/// What the codec writes under `bufferViews` for the top-level object is well
/// formed and is read back.
proof fn lemma_root_value_views(x: RootView)
    requires
        x.ok(),
    ensures
        (if x.views.len() == 0 {
                None
            } else {
                Some(JsonView::Array(buffer_views_json(x.views)))
            }) matches Some(v) ==> well_formed(v, (PROPS_DEPTH + 4) as nat),
        forall|ms: Seq<MemberView>|
            find(ms, BUFFER_VIEWS@) == (if x.views.len() == 0 {
                None
            } else {
                Some(JsonView::Array(buffer_views_json(x.views)))
            }) ==> #[trigger] buffer_views_under(ms, BUFFER_VIEWS@) == Some(x.views),
{
    reveal(RootView::ok);
    lemma_buffer_views_round_trip(x.views);
    lemma_array_well_formed(buffer_views_json(x.views), (PROPS_DEPTH + 1) as nat);
    lemma_well_formed_deeper(
        JsonView::Array(buffer_views_json(x.views)),
        (PROPS_DEPTH + 2) as nat,
        (PROPS_DEPTH + 4) as nat,
    );
    if x.views.len() == 0 {
        assert(x.views =~= Seq::<BufferViewView>::empty());
        assert(buffer_views_of(Seq::<JsonView>::empty()).unwrap() =~= Seq::<BufferViewView>::empty());
    }
}

/// What stands under `buffers` among the members the codec writes for
/// the top-level object.
proof fn lemma_root_find_buffers(x: RootView)
    ensures
        find(root_typed(x), BUFFERS@) == if x.buffers.len() == 0 {
        None
    } else {
        Some(JsonView::Array(buffer_descs_json(x.buffers)))
    },
{
    broadcast use lemma_find_with_member;

    reveal(root_typed);
    lemma_names_root();
}

/// What the codec writes under `buffers` for the top-level object is well
/// formed and is read back.
proof fn lemma_root_value_buffers(x: RootView)
    requires
        x.ok(),
    ensures
        (if x.buffers.len() == 0 {
                None
            } else {
                Some(JsonView::Array(buffer_descs_json(x.buffers)))
            }) matches Some(v) ==> well_formed(v, (PROPS_DEPTH + 4) as nat),
        forall|ms: Seq<MemberView>|
            find(ms, BUFFERS@) == (if x.buffers.len() == 0 {
                None
            } else {
                Some(JsonView::Array(buffer_descs_json(x.buffers)))
            }) ==> #[trigger] buffer_descs_under(ms, BUFFERS@) == Some(x.buffers),
{
    reveal(RootView::ok);
    lemma_buffer_descs_round_trip(x.buffers);
    lemma_array_well_formed(buffer_descs_json(x.buffers), (PROPS_DEPTH + 1) as nat);
    lemma_well_formed_deeper(
        JsonView::Array(buffer_descs_json(x.buffers)),
        (PROPS_DEPTH + 2) as nat,
        (PROPS_DEPTH + 4) as nat,
    );
    if x.buffers.len() == 0 {
        assert(x.buffers =~= Seq::<BufferDescView>::empty());
        assert(buffer_descs_of(Seq::<JsonView>::empty()).unwrap() =~= Seq::<BufferDescView>::empty());
    }
}

/// What stands under `extensionsUsed` among the members the codec writes for
/// the top-level object.
proof fn lemma_root_find_extensions_used(x: RootView)
    ensures
        find(root_typed(x), EXTENSIONS_USED@) == if x.extensions_used.len() == 0 {
        None
    } else {
        Some(JsonView::Array(texts_json(x.extensions_used)))
    },
{
    broadcast use lemma_find_with_member;

    reveal(root_typed);
    lemma_names_root();
}

/// What the codec writes under `extensionsUsed` for the top-level object is
/// well formed and is read back.
proof fn lemma_root_value_extensions_used(x: RootView)
    requires
        x.ok(),
    ensures
        (if x.extensions_used.len() == 0 {
                None
            } else {
                Some(JsonView::Array(texts_json(x.extensions_used)))
            }) matches Some(v) ==> well_formed(v, (PROPS_DEPTH + 4) as nat),
        forall|ms: Seq<MemberView>|
            find(ms, EXTENSIONS_USED@) == (if x.extensions_used.len() == 0 {
                None
            } else {
                Some(JsonView::Array(texts_json(x.extensions_used)))
            }) ==> #[trigger] text_list(ms, EXTENSIONS_USED@) == Some(x.extensions_used),
{
    reveal(RootView::ok);
    lemma_texts_json(x.extensions_used);
    lemma_well_formed_deeper(JsonView::Array(texts_json(x.extensions_used)), 1, (PROPS_DEPTH + 4) as nat);
    if x.extensions_used.len() == 0 {
        assert(x.extensions_used =~= Seq::<Seq<u8>>::empty());
        assert(texts_of(Seq::<JsonView>::empty()).unwrap() =~= Seq::<Seq<u8>>::empty());
    }
}

/// What stands under `extensionsRequired` among the members the codec writes
/// for the top-level object.
proof fn lemma_root_find_extensions_required(x: RootView)
    ensures
        find(root_typed(x), EXTENSIONS_REQUIRED@) == if x.extensions_required.len() == 0 {
        None
    } else {
        Some(JsonView::Array(texts_json(x.extensions_required)))
    },
{
    broadcast use lemma_find_with_member;

    reveal(root_typed);
    lemma_names_root();
}

/// What the codec writes under `extensionsRequired` for the top-level object
/// is well formed and is read back.
proof fn lemma_root_value_extensions_required(x: RootView)
    requires
        x.ok(),
    ensures
        (if x.extensions_required.len() == 0 {
                None
            } else {
                Some(JsonView::Array(texts_json(x.extensions_required)))
            }) matches Some(v) ==> well_formed(v, (PROPS_DEPTH + 4) as nat),
        forall|ms: Seq<MemberView>|
            find(ms, EXTENSIONS_REQUIRED@) == (if x.extensions_required.len() == 0 {
                None
            } else {
                Some(JsonView::Array(texts_json(x.extensions_required)))
            }) ==> #[trigger] text_list(ms, EXTENSIONS_REQUIRED@) == Some(x.extensions_required),
{
    reveal(RootView::ok);
    lemma_texts_json(x.extensions_required);
    lemma_well_formed_deeper(JsonView::Array(texts_json(x.extensions_required)), 1, (PROPS_DEPTH + 4) as nat);
    if x.extensions_required.len() == 0 {
        assert(x.extensions_required =~= Seq::<Seq<u8>>::empty());
        assert(texts_of(Seq::<JsonView>::empty()).unwrap() =~= Seq::<Seq<u8>>::empty());
    }
}

/// What stands under `extensions` among the members the codec writes for
/// the top-level object.
proof fn lemma_root_find_extensions(x: RootView)
    ensures
        find(root_typed(x), EXTENSIONS@) == if x.extensions.len() == 0 {
        None
    } else {
        Some(JsonView::Object(x.extensions))
    },
{
    broadcast use lemma_find_with_member;

    reveal(root_typed);
    lemma_names_root();
}

/// What the codec writes under `extensions` for the top-level object is well
/// formed and is read back.
proof fn lemma_root_value_extensions(x: RootView)
    requires
        x.ok(),
    ensures
        (if x.extensions.len() == 0 {
                None
            } else {
                Some(JsonView::Object(x.extensions))
            }) matches Some(v) ==> well_formed(v, (PROPS_DEPTH + 4) as nat),
        forall|ms: Seq<MemberView>|
            find(ms, EXTENSIONS@) == (if x.extensions.len() == 0 {
                None
            } else {
                Some(JsonView::Object(x.extensions))
            }) ==> #[trigger] payloads(ms, EXTENSIONS@) == Some(x.extensions),
{
    reveal(RootView::ok);
    lemma_object_well_formed(x.extensions, PROPS_DEPTH as nat);
    lemma_well_formed_deeper(
        JsonView::Object(x.extensions),
        (PROPS_DEPTH + 1) as nat,
        (PROPS_DEPTH + 4) as nat,
    );
    if x.extensions.len() == 0 {
        assert(x.extensions =~= Seq::<MemberView>::empty());
    }
}

/// None of the members the codec writes for the top-level object is carried
/// along.
#[verifier::rlimit(50)]
proof fn lemma_root_retain(x: RootView)
    ensures
        retain(root_typed(x), Kind::Root) == Seq::<MemberView>::empty(),
{
    reveal(root_typed);
    lemma_names_root();
    let t0 = Seq::<MemberView>::empty();
    assert(retain(t0, Kind::Root) =~= Seq::<MemberView>::empty());
    lemma_retain_with_member(
        t0,
        ASSET@,
        asset_json(Some(x.asset)),
        Kind::Root,
    );
    let t1 = with_member(t0, ASSET@, asset_json(Some(x.asset)));
    assert(retain(t1, Kind::Root) == Seq::<MemberView>::empty());
    lemma_retain_with_member(
        t1,
        SCENE@,
        match x.scene {
            Some(n) => Some(index_json(n)),
            None => None,
        },
        Kind::Root,
    );
    let t2 = with_index(t1, SCENE@, x.scene);
    assert(retain(t2, Kind::Root) == Seq::<MemberView>::empty());
    lemma_retain_with_member(
        t2,
        SCENES@,
        if scenes_json(x.scenes).len() == 0 {
            None
        } else {
            Some(JsonView::Array(scenes_json(x.scenes)))
        },
        Kind::Root,
    );
    let t3 = with_array(t2, SCENES@, scenes_json(x.scenes));
    assert(retain(t3, Kind::Root) == Seq::<MemberView>::empty());
    lemma_retain_with_member(
        t3,
        NODES@,
        if nodes_json(x.nodes).len() == 0 {
            None
        } else {
            Some(JsonView::Array(nodes_json(x.nodes)))
        },
        Kind::Root,
    );
    let t4 = with_array(t3, NODES@, nodes_json(x.nodes));
    assert(retain(t4, Kind::Root) == Seq::<MemberView>::empty());
    lemma_retain_with_member(
        t4,
        MESHES@,
        if meshes_json(x.meshes).len() == 0 {
            None
        } else {
            Some(JsonView::Array(meshes_json(x.meshes)))
        },
        Kind::Root,
    );
    let t5 = with_array(t4, MESHES@, meshes_json(x.meshes));
    assert(retain(t5, Kind::Root) == Seq::<MemberView>::empty());
    lemma_retain_with_member(
        t5,
        MATERIALS@,
        if materials_json(x.materials).len() == 0 {
            None
        } else {
            Some(JsonView::Array(materials_json(x.materials)))
        },
        Kind::Root,
    );
    let t6 = with_array(t5, MATERIALS@, materials_json(x.materials));
    assert(retain(t6, Kind::Root) == Seq::<MemberView>::empty());
    lemma_retain_with_member(
        t6,
        TEXTURES@,
        if textures_json(x.textures).len() == 0 {
            None
        } else {
            Some(JsonView::Array(textures_json(x.textures)))
        },
        Kind::Root,
    );
    let t7 = with_array(t6, TEXTURES@, textures_json(x.textures));
    assert(retain(t7, Kind::Root) == Seq::<MemberView>::empty());
    lemma_retain_with_member(
        t7,
        IMAGES@,
        if images_json(x.images).len() == 0 {
            None
        } else {
            Some(JsonView::Array(images_json(x.images)))
        },
        Kind::Root,
    );
    let t8 = with_array(t7, IMAGES@, images_json(x.images));
    assert(retain(t8, Kind::Root) == Seq::<MemberView>::empty());
    lemma_retain_with_member(
        t8,
        SAMPLERS@,
        if samplers_json(x.samplers).len() == 0 {
            None
        } else {
            Some(JsonView::Array(samplers_json(x.samplers)))
        },
        Kind::Root,
    );
    let t9 = with_array(t8, SAMPLERS@, samplers_json(x.samplers));
    assert(retain(t9, Kind::Root) == Seq::<MemberView>::empty());
    lemma_retain_with_member(
        t9,
        ACCESSORS@,
        if accessors_json(x.accessors).len() == 0 {
            None
        } else {
            Some(JsonView::Array(accessors_json(x.accessors)))
        },
        Kind::Root,
    );
    let t10 = with_array(t9, ACCESSORS@, accessors_json(x.accessors));
    assert(retain(t10, Kind::Root) == Seq::<MemberView>::empty());
    lemma_retain_with_member(
        t10,
        BUFFER_VIEWS@,
        if buffer_views_json(x.views).len() == 0 {
            None
        } else {
            Some(JsonView::Array(buffer_views_json(x.views)))
        },
        Kind::Root,
    );
    let t11 = with_array(t10, BUFFER_VIEWS@, buffer_views_json(x.views));
    assert(retain(t11, Kind::Root) == Seq::<MemberView>::empty());
    lemma_retain_with_member(
        t11,
        BUFFERS@,
        if buffer_descs_json(x.buffers).len() == 0 {
            None
        } else {
            Some(JsonView::Array(buffer_descs_json(x.buffers)))
        },
        Kind::Root,
    );
    let t12 = with_array(t11, BUFFERS@, buffer_descs_json(x.buffers));
    assert(retain(t12, Kind::Root) == Seq::<MemberView>::empty());
    lemma_retain_with_member(
        t12,
        EXTENSIONS_USED@,
        if texts_json(x.extensions_used).len() == 0 {
            None
        } else {
            Some(JsonView::Array(texts_json(x.extensions_used)))
        },
        Kind::Root,
    );
    let t13 = with_array(t12, EXTENSIONS_USED@, texts_json(x.extensions_used));
    assert(retain(t13, Kind::Root) == Seq::<MemberView>::empty());
    lemma_retain_with_member(
        t13,
        EXTENSIONS_REQUIRED@,
        if texts_json(x.extensions_required).len() == 0 {
            None
        } else {
            Some(JsonView::Array(texts_json(x.extensions_required)))
        },
        Kind::Root,
    );
    let t14 = with_array(t13, EXTENSIONS_REQUIRED@, texts_json(x.extensions_required));
    assert(retain(t14, Kind::Root) == Seq::<MemberView>::empty());
    lemma_retain_with_member(
        t14,
        EXTENSIONS@,
        if x.extensions.len() == 0 {
            None
        } else {
            Some(JsonView::Object(x.extensions))
        },
        Kind::Root,
    );
    let t15 = with_object(t14, EXTENSIONS@, x.extensions);
    assert(retain(t15, Kind::Root) == Seq::<MemberView>::empty());
}

/// The members the codec writes for the top-level object are well formed.
proof fn lemma_root_well_formed(x: RootView)
    requires
        x.ok(),
    ensures
        members_well_formed(root_typed(x), (PROPS_DEPTH + 4) as nat),
{
    broadcast use lemma_well_formed_with_member;

    reveal(root_typed);
    lemma_root_value_asset(x);
    lemma_root_value_scene(x);
    lemma_root_value_scenes(x);
    lemma_root_value_nodes(x);
    lemma_root_value_meshes(x);
    lemma_root_value_materials(x);
    lemma_root_value_textures(x);
    lemma_root_value_images(x);
    lemma_root_value_samplers(x);
    lemma_root_value_accessors(x);
    lemma_root_value_views(x);
    lemma_root_value_buffers(x);
    lemma_root_value_extensions_used(x);
    lemma_root_value_extensions_required(x);
    lemma_root_value_extensions(x);
}

/// The top-level object is read back from the members it is written as, and
/// those are well formed.
#[verifier::rlimit(50)]
pub proof fn lemma_root_round_trip(x: RootView)
    requires
        x.ok(),
    ensures
        root_of(root_members(x)) == Some(x),
        well_formed(JsonView::Object(root_members(x)), (PROPS_DEPTH + 5) as nat),
{
    reveal(RootView::ok);
    reveal(root_of);
    lemma_root_retain(x);
    lemma_root_well_formed(x);
    let typed = root_typed(x);
    lemma_root_find_asset(x);
    lemma_root_value_asset(x);
    lemma_find_concat(typed, x.props, ASSET@);
    lemma_find_absent(x.props, Kind::Root, ASSET@);
    lemma_root_find_scene(x);
    lemma_root_value_scene(x);
    lemma_find_concat(typed, x.props, SCENE@);
    lemma_find_absent(x.props, Kind::Root, SCENE@);
    lemma_root_find_scenes(x);
    lemma_root_value_scenes(x);
    lemma_find_concat(typed, x.props, SCENES@);
    lemma_find_absent(x.props, Kind::Root, SCENES@);
    lemma_root_find_nodes(x);
    lemma_root_value_nodes(x);
    lemma_find_concat(typed, x.props, NODES@);
    lemma_find_absent(x.props, Kind::Root, NODES@);
    lemma_root_find_meshes(x);
    lemma_root_value_meshes(x);
    lemma_find_concat(typed, x.props, MESHES@);
    lemma_find_absent(x.props, Kind::Root, MESHES@);
    lemma_root_find_materials(x);
    lemma_root_value_materials(x);
    lemma_find_concat(typed, x.props, MATERIALS@);
    lemma_find_absent(x.props, Kind::Root, MATERIALS@);
    lemma_root_find_textures(x);
    lemma_root_value_textures(x);
    lemma_find_concat(typed, x.props, TEXTURES@);
    lemma_find_absent(x.props, Kind::Root, TEXTURES@);
    lemma_root_find_images(x);
    lemma_root_value_images(x);
    lemma_find_concat(typed, x.props, IMAGES@);
    lemma_find_absent(x.props, Kind::Root, IMAGES@);
    lemma_root_find_samplers(x);
    lemma_root_value_samplers(x);
    lemma_find_concat(typed, x.props, SAMPLERS@);
    lemma_find_absent(x.props, Kind::Root, SAMPLERS@);
    lemma_root_find_accessors(x);
    lemma_root_value_accessors(x);
    lemma_find_concat(typed, x.props, ACCESSORS@);
    lemma_find_absent(x.props, Kind::Root, ACCESSORS@);
    lemma_root_find_views(x);
    lemma_root_value_views(x);
    lemma_find_concat(typed, x.props, BUFFER_VIEWS@);
    lemma_find_absent(x.props, Kind::Root, BUFFER_VIEWS@);
    lemma_root_find_buffers(x);
    lemma_root_value_buffers(x);
    lemma_find_concat(typed, x.props, BUFFERS@);
    lemma_find_absent(x.props, Kind::Root, BUFFERS@);
    lemma_root_find_extensions_used(x);
    lemma_root_value_extensions_used(x);
    lemma_find_concat(typed, x.props, EXTENSIONS_USED@);
    lemma_find_absent(x.props, Kind::Root, EXTENSIONS_USED@);
    lemma_root_find_extensions_required(x);
    lemma_root_value_extensions_required(x);
    lemma_find_concat(typed, x.props, EXTENSIONS_REQUIRED@);
    lemma_find_absent(x.props, Kind::Root, EXTENSIONS_REQUIRED@);
    lemma_root_find_extensions(x);
    lemma_root_value_extensions(x);
    lemma_find_concat(typed, x.props, EXTENSIONS@);
    lemma_find_absent(x.props, Kind::Root, EXTENSIONS@);
    lemma_names_root();
    lemma_members_deeper(x.props, PROPS_DEPTH as nat, (PROPS_DEPTH + 4) as nat);
    lemma_well_formed_concat(typed, x.props, (PROPS_DEPTH + 4) as nat);
    lemma_object_well_formed(typed + x.props, (PROPS_DEPTH + 4) as nat);
    lemma_retain_concat(typed, x.props, Kind::Root);
    lemma_retain_all(x.props, Kind::Root);
    assert(retain(typed + x.props, Kind::Root) =~= x.props);
}

/// What is read as the top-level object can be written and read back.
pub proof fn lemma_root_of_ok(ms: Seq<MemberView>)
    requires
        root_of(ms) is Some,
    ensures
        root_of(ms)->Some_0.ok(),
{
    reveal(root_of);
    reveal(RootView::ok);
    lemma_retain_sound(ms, Kind::Root, PROPS_DEPTH as nat);
    match find(ms, ASSET@) {
        Some(JsonView::Object(inner)) => {
            if asset_of(inner) is Some {
                lemma_asset_of_ok(inner);
            }
        },
        _ => {},
    }
    match array(ms, SCENES@) {
        Some(items) => {
            if scenes_of(items) is Some {
                lemma_scenes_of_ok(items);
            }
        },
        None => {},
    }
    match array(ms, NODES@) {
        Some(items) => {
            if nodes_of(items) is Some {
                lemma_nodes_of_ok(items);
            }
        },
        None => {},
    }
    match array(ms, MESHES@) {
        Some(items) => {
            if meshes_of(items) is Some {
                lemma_meshes_of_ok(items);
            }
        },
        None => {},
    }
    match array(ms, MATERIALS@) {
        Some(items) => {
            if materials_of(items) is Some {
                lemma_materials_of_ok(items);
            }
        },
        None => {},
    }
    match array(ms, TEXTURES@) {
        Some(items) => {
            if textures_of(items) is Some {
                lemma_textures_of_ok(items);
            }
        },
        None => {},
    }
    match array(ms, IMAGES@) {
        Some(items) => {
            if images_of(items) is Some {
                lemma_images_of_ok(items);
            }
        },
        None => {},
    }
    match array(ms, SAMPLERS@) {
        Some(items) => {
            if samplers_of(items) is Some {
                lemma_samplers_of_ok(items);
            }
        },
        None => {},
    }
    match array(ms, ACCESSORS@) {
        Some(items) => {
            if accessors_of(items) is Some {
                lemma_accessors_of_ok(items);
            }
        },
        None => {},
    }
    match array(ms, BUFFER_VIEWS@) {
        Some(items) => {
            if buffer_views_of(items) is Some {
                lemma_buffer_views_of_ok(items);
            }
        },
        None => {},
    }
    match array(ms, BUFFERS@) {
        Some(items) => {
            if buffer_descs_of(items) is Some {
                lemma_buffer_descs_of_ok(items);
            }
        },
        None => {},
    }
}

} // verus!
