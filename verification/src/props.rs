//! The members that are carried along with an entity as they are written:
//! the names that a kind of object may keep beside the members the codec
//! understands.
use vstd::prelude::*;
use crate::fields::is_key;
use crate::names::{
    ACCESSORS,
    ALPHA_CUTOFF,
    ALPHA_MODE,
    ASSET,
    ATTRIBUTES,
    BASE_COLOR_FACTOR,
    BASE_COLOR_TEXTURE,
    BUFFER,
    BUFFERS,
    BUFFER_VIEW,
    BUFFER_VIEWS,
    BYTE_LENGTH,
    BYTE_OFFSET,
    BYTE_STRIDE,
    CHILDREN,
    COMPONENT_TYPE,
    COPYRIGHT,
    COUNT,
    DOUBLE_SIDED,
    EMISSIVE_FACTOR,
    EMISSIVE_TEXTURE,
    EXTENSIONS,
    EXTENSIONS_REQUIRED,
    EXTENSIONS_USED,
    EXTRAS,
    GENERATOR,
    IMAGES,
    INDEX,
    INDICES,
    KIND,
    MAG_FILTER,
    MATERIAL,
    MATERIALS,
    MATRIX,
    MAX,
    MESH,
    MESHES,
    METALLIC_FACTOR,
    METALLIC_ROUGHNESS_TEXTURE,
    MIME_TYPE,
    MIN,
    MIN_FILTER,
    MIN_VERSION,
    MODE,
    NAME,
    NODES,
    NORMALIZED,
    NORMAL_TEXTURE,
    OCCLUSION_TEXTURE,
    PBR_METALLIC_ROUGHNESS,
    PRIMITIVES,
    ROTATION,
    ROUGHNESS_FACTOR,
    SAMPLER,
    SAMPLERS,
    SCALE,
    SCENE,
    SCENES,
    SOURCE,
    STRENGTH,
    TARGET,
    TEXTURES,
    TEX_COORD,
    TRANSLATION,
    URI,
    VERSION,
    WRAP_S,
    WRAP_T,
};

verus! {

/// The kinds of object in the JSON text of an asset.
#[derive(Clone, Copy, Debug, PartialEq, Eq, Structural)]
pub enum Kind {
    /// The top-level object.
    Root,
    /// The `asset` object.
    Asset,
    /// A scene.
    Scene,
    /// A node.
    Node,
    /// A mesh.
    Mesh,
    /// A primitive of a mesh.
    Primitive,
    /// A material.
    Material,
    /// The `pbrMetallicRoughness` object of a material.
    Pbr,
    /// A material's reference to a texture.
    TextureRef,
    /// A texture.
    Texture,
    /// An image.
    Image,
    /// A sampler.
    Sampler,
    /// An accessor.
    Accessor,
    /// A buffer view.
    View,
    /// A buffer.
    Buffer,
}

/// Whether an object of `kind` keeps a member named `key` as it is written.
pub open spec fn allowed(kind: Kind, key: Seq<u8>) -> bool {
    match kind {
        Kind::Root => key == EXTRAS@,
        Kind::Asset => key == GENERATOR@
            || key == COPYRIGHT@
            || key == MIN_VERSION@
            || key == EXTRAS@,
        Kind::Scene => key == NAME@
            || key == EXTRAS@,
        Kind::Node => key == NAME@
            || key == TRANSLATION@
            || key == ROTATION@
            || key == SCALE@
            || key == MATRIX@
            || key == EXTRAS@,
        Kind::Mesh => key == NAME@
            || key == EXTRAS@,
        Kind::Primitive => key == MODE@
            || key == EXTRAS@,
        Kind::Material => key == NAME@
            || key == EMISSIVE_FACTOR@
            || key == ALPHA_MODE@
            || key == ALPHA_CUTOFF@
            || key == DOUBLE_SIDED@
            || key == EXTRAS@,
        Kind::Pbr => key == BASE_COLOR_FACTOR@
            || key == METALLIC_FACTOR@
            || key == ROUGHNESS_FACTOR@,
        Kind::TextureRef => key == TEX_COORD@
            || key == SCALE@
            || key == STRENGTH@,
        Kind::Texture => key == NAME@
            || key == EXTRAS@,
        Kind::Image => key == NAME@,
        Kind::Sampler => key == MAG_FILTER@
            || key == MIN_FILTER@
            || key == WRAP_S@
            || key == WRAP_T@
            || key == NAME@,
        Kind::Accessor => key == MIN@
            || key == MAX@
            || key == NAME@,
        Kind::View => key == TARGET@
            || key == NAME@,
        Kind::Buffer => key == NAME@,
    }
}

/// Decides whether an object of `kind` keeps a member named `key`.
pub fn is_allowed(kind: Kind, key: &Vec<u8>) -> (r: bool)
    ensures
        r == allowed(kind, key@),
{
    match kind {
        Kind::Root => is_key(key, &EXTRAS),
        Kind::Asset => is_key(key, &GENERATOR)
            || is_key(key, &COPYRIGHT)
            || is_key(key, &MIN_VERSION)
            || is_key(key, &EXTRAS),
        Kind::Scene => is_key(key, &NAME)
            || is_key(key, &EXTRAS),
        Kind::Node => is_key(key, &NAME)
            || is_key(key, &TRANSLATION)
            || is_key(key, &ROTATION)
            || is_key(key, &SCALE)
            || is_key(key, &MATRIX)
            || is_key(key, &EXTRAS),
        Kind::Mesh => is_key(key, &NAME)
            || is_key(key, &EXTRAS),
        Kind::Primitive => is_key(key, &MODE)
            || is_key(key, &EXTRAS),
        Kind::Material => is_key(key, &NAME)
            || is_key(key, &EMISSIVE_FACTOR)
            || is_key(key, &ALPHA_MODE)
            || is_key(key, &ALPHA_CUTOFF)
            || is_key(key, &DOUBLE_SIDED)
            || is_key(key, &EXTRAS),
        Kind::Pbr => is_key(key, &BASE_COLOR_FACTOR)
            || is_key(key, &METALLIC_FACTOR)
            || is_key(key, &ROUGHNESS_FACTOR),
        Kind::TextureRef => is_key(key, &TEX_COORD)
            || is_key(key, &SCALE)
            || is_key(key, &STRENGTH),
        Kind::Texture => is_key(key, &NAME)
            || is_key(key, &EXTRAS),
        Kind::Image => is_key(key, &NAME),
        Kind::Sampler => is_key(key, &MAG_FILTER)
            || is_key(key, &MIN_FILTER)
            || is_key(key, &WRAP_S)
            || is_key(key, &WRAP_T)
            || is_key(key, &NAME),
        Kind::Accessor => is_key(key, &MIN)
            || is_key(key, &MAX)
            || is_key(key, &NAME),
        Kind::View => is_key(key, &TARGET)
            || is_key(key, &NAME),
        Kind::Buffer => is_key(key, &NAME),
    }
}

/// The names that the codec understands in the top-level object differ from each other and
/// from the names that are kept as they are.
pub proof fn lemma_names_root()
    ensures
        ASSET@ != SCENE@,
        ASSET@ != SCENES@,
        ASSET@ != NODES@,
        ASSET@ != MESHES@,
        ASSET@ != MATERIALS@,
        ASSET@ != TEXTURES@,
        ASSET@ != IMAGES@,
        ASSET@ != SAMPLERS@,
        ASSET@ != ACCESSORS@,
        ASSET@ != BUFFER_VIEWS@,
        ASSET@ != BUFFERS@,
        ASSET@ != EXTENSIONS_USED@,
        ASSET@ != EXTENSIONS_REQUIRED@,
        ASSET@ != EXTENSIONS@,
        SCENE@ != SCENES@,
        SCENE@ != NODES@,
        SCENE@ != MESHES@,
        SCENE@ != MATERIALS@,
        SCENE@ != TEXTURES@,
        SCENE@ != IMAGES@,
        SCENE@ != SAMPLERS@,
        SCENE@ != ACCESSORS@,
        SCENE@ != BUFFER_VIEWS@,
        SCENE@ != BUFFERS@,
        SCENE@ != EXTENSIONS_USED@,
        SCENE@ != EXTENSIONS_REQUIRED@,
        SCENE@ != EXTENSIONS@,
        SCENES@ != NODES@,
        SCENES@ != MESHES@,
        SCENES@ != MATERIALS@,
        SCENES@ != TEXTURES@,
        SCENES@ != IMAGES@,
        SCENES@ != SAMPLERS@,
        SCENES@ != ACCESSORS@,
        SCENES@ != BUFFER_VIEWS@,
        SCENES@ != BUFFERS@,
        SCENES@ != EXTENSIONS_USED@,
        SCENES@ != EXTENSIONS_REQUIRED@,
        SCENES@ != EXTENSIONS@,
        NODES@ != MESHES@,
        NODES@ != MATERIALS@,
        NODES@ != TEXTURES@,
        NODES@ != IMAGES@,
        NODES@ != SAMPLERS@,
        NODES@ != ACCESSORS@,
        NODES@ != BUFFER_VIEWS@,
        NODES@ != BUFFERS@,
        NODES@ != EXTENSIONS_USED@,
        NODES@ != EXTENSIONS_REQUIRED@,
        NODES@ != EXTENSIONS@,
        MESHES@ != MATERIALS@,
        MESHES@ != TEXTURES@,
        MESHES@ != IMAGES@,
        MESHES@ != SAMPLERS@,
        MESHES@ != ACCESSORS@,
        MESHES@ != BUFFER_VIEWS@,
        MESHES@ != BUFFERS@,
        MESHES@ != EXTENSIONS_USED@,
        MESHES@ != EXTENSIONS_REQUIRED@,
        MESHES@ != EXTENSIONS@,
        MATERIALS@ != TEXTURES@,
        MATERIALS@ != IMAGES@,
        MATERIALS@ != SAMPLERS@,
        MATERIALS@ != ACCESSORS@,
        MATERIALS@ != BUFFER_VIEWS@,
        MATERIALS@ != BUFFERS@,
        MATERIALS@ != EXTENSIONS_USED@,
        MATERIALS@ != EXTENSIONS_REQUIRED@,
        MATERIALS@ != EXTENSIONS@,
        TEXTURES@ != IMAGES@,
        TEXTURES@ != SAMPLERS@,
        TEXTURES@ != ACCESSORS@,
        TEXTURES@ != BUFFER_VIEWS@,
        TEXTURES@ != BUFFERS@,
        TEXTURES@ != EXTENSIONS_USED@,
        TEXTURES@ != EXTENSIONS_REQUIRED@,
        TEXTURES@ != EXTENSIONS@,
        IMAGES@ != SAMPLERS@,
        IMAGES@ != ACCESSORS@,
        IMAGES@ != BUFFER_VIEWS@,
        IMAGES@ != BUFFERS@,
        IMAGES@ != EXTENSIONS_USED@,
        IMAGES@ != EXTENSIONS_REQUIRED@,
        IMAGES@ != EXTENSIONS@,
        SAMPLERS@ != ACCESSORS@,
        SAMPLERS@ != BUFFER_VIEWS@,
        SAMPLERS@ != BUFFERS@,
        SAMPLERS@ != EXTENSIONS_USED@,
        SAMPLERS@ != EXTENSIONS_REQUIRED@,
        SAMPLERS@ != EXTENSIONS@,
        ACCESSORS@ != BUFFER_VIEWS@,
        ACCESSORS@ != BUFFERS@,
        ACCESSORS@ != EXTENSIONS_USED@,
        ACCESSORS@ != EXTENSIONS_REQUIRED@,
        ACCESSORS@ != EXTENSIONS@,
        BUFFER_VIEWS@ != BUFFERS@,
        BUFFER_VIEWS@ != EXTENSIONS_USED@,
        BUFFER_VIEWS@ != EXTENSIONS_REQUIRED@,
        BUFFER_VIEWS@ != EXTENSIONS@,
        BUFFERS@ != EXTENSIONS_USED@,
        BUFFERS@ != EXTENSIONS_REQUIRED@,
        BUFFERS@ != EXTENSIONS@,
        EXTENSIONS_USED@ != EXTENSIONS_REQUIRED@,
        EXTENSIONS_USED@ != EXTENSIONS@,
        EXTENSIONS_REQUIRED@ != EXTENSIONS@,
        !allowed(Kind::Root, ASSET@),
        !allowed(Kind::Root, SCENE@),
        !allowed(Kind::Root, SCENES@),
        !allowed(Kind::Root, NODES@),
        !allowed(Kind::Root, MESHES@),
        !allowed(Kind::Root, MATERIALS@),
        !allowed(Kind::Root, TEXTURES@),
        !allowed(Kind::Root, IMAGES@),
        !allowed(Kind::Root, SAMPLERS@),
        !allowed(Kind::Root, ACCESSORS@),
        !allowed(Kind::Root, BUFFER_VIEWS@),
        !allowed(Kind::Root, BUFFERS@),
        !allowed(Kind::Root, EXTENSIONS_USED@),
        !allowed(Kind::Root, EXTENSIONS_REQUIRED@),
        !allowed(Kind::Root, EXTENSIONS@),
{
    assert(ASSET@[0] != SCENE@[0]);
    assert(ASSET@[0] != NODES@[0]);
    assert(SCENE@.len() != SCENES@.len());
    assert(SCENE@[0] != NODES@[0]);
    assert(SCENES@[0] != MESHES@[0]);
    assert(SCENES@[0] != IMAGES@[0]);
    assert(MESHES@[0] != IMAGES@[0]);
    assert(MATERIALS@[0] != ACCESSORS@[0]);
    assert(TEXTURES@[0] != SAMPLERS@[0]);
    assert(EXTENSIONS_USED@.len() != EXTENSIONS@.len());
    assert(EXTENSIONS_REQUIRED@.len() != EXTENSIONS@.len());
    assert(SCENES@[0] != EXTRAS@[0]);
    assert(MESHES@[0] != EXTRAS@[0]);
    assert(IMAGES@[0] != EXTRAS@[0]);
}

/// The names that the codec understands in the `asset` object differ from each other and
/// from the names that are kept as they are.
pub proof fn lemma_names_asset()
    ensures
        !allowed(Kind::Asset, VERSION@),
{

}

/// The names that the codec understands in a scene differ from each other and
/// from the names that are kept as they are.
pub proof fn lemma_names_scene()
    ensures
        !allowed(Kind::Scene, NODES@),
{

}

/// The names that the codec understands in a node differ from each other and
/// from the names that are kept as they are.
pub proof fn lemma_names_node()
    ensures
        CHILDREN@ != MESH@,
        CHILDREN@ != EXTENSIONS@,
        MESH@ != EXTENSIONS@,
        !allowed(Kind::Node, CHILDREN@),
        !allowed(Kind::Node, MESH@),
        !allowed(Kind::Node, EXTENSIONS@),
{
    assert(CHILDREN@[0] != ROTATION@[0]);
    assert(MESH@[0] != NAME@[0]);
}

/// The names that the codec understands in a mesh differ from each other and
/// from the names that are kept as they are.
pub proof fn lemma_names_mesh()
    ensures
        !allowed(Kind::Mesh, PRIMITIVES@),
{

}

/// The names that the codec understands in a primitive of a mesh differ from each other and
/// from the names that are kept as they are.
pub proof fn lemma_names_primitive()
    ensures
        ATTRIBUTES@ != INDICES@,
        ATTRIBUTES@ != MATERIAL@,
        INDICES@ != MATERIAL@,
        !allowed(Kind::Primitive, ATTRIBUTES@),
        !allowed(Kind::Primitive, INDICES@),
        !allowed(Kind::Primitive, MATERIAL@),
{

}

/// The names that the codec understands in a material differ from each other and
/// from the names that are kept as they are.
pub proof fn lemma_names_material()
    ensures
        PBR_METALLIC_ROUGHNESS@ != NORMAL_TEXTURE@,
        PBR_METALLIC_ROUGHNESS@ != OCCLUSION_TEXTURE@,
        PBR_METALLIC_ROUGHNESS@ != EMISSIVE_TEXTURE@,
        PBR_METALLIC_ROUGHNESS@ != EXTENSIONS@,
        NORMAL_TEXTURE@ != OCCLUSION_TEXTURE@,
        NORMAL_TEXTURE@ != EMISSIVE_TEXTURE@,
        NORMAL_TEXTURE@ != EXTENSIONS@,
        OCCLUSION_TEXTURE@ != EMISSIVE_TEXTURE@,
        OCCLUSION_TEXTURE@ != EXTENSIONS@,
        EMISSIVE_TEXTURE@ != EXTENSIONS@,
        !allowed(Kind::Material, PBR_METALLIC_ROUGHNESS@),
        !allowed(Kind::Material, NORMAL_TEXTURE@),
        !allowed(Kind::Material, OCCLUSION_TEXTURE@),
        !allowed(Kind::Material, EMISSIVE_TEXTURE@),
        !allowed(Kind::Material, EXTENSIONS@),
{

}

/// The names that the codec understands in the `pbrMetallicRoughness` object of a material differ from each other and
/// from the names that are kept as they are.
pub proof fn lemma_names_pbr()
    ensures
        BASE_COLOR_TEXTURE@ != METALLIC_ROUGHNESS_TEXTURE@,
        !allowed(Kind::Pbr, BASE_COLOR_TEXTURE@),
        !allowed(Kind::Pbr, METALLIC_ROUGHNESS_TEXTURE@),
{

}

/// The names that the codec understands in a material's reference to a texture differ from each other and
/// from the names that are kept as they are.
pub proof fn lemma_names_texture_ref()
    ensures
        !allowed(Kind::TextureRef, INDEX@),
{
    assert(INDEX@[0] != SCALE@[0]);
}

/// The names that the codec understands in a texture differ from each other and
/// from the names that are kept as they are.
pub proof fn lemma_names_texture()
    ensures
        SOURCE@ != SAMPLER@,
        SOURCE@ != EXTENSIONS@,
        SAMPLER@ != EXTENSIONS@,
        !allowed(Kind::Texture, SOURCE@),
        !allowed(Kind::Texture, SAMPLER@),
        !allowed(Kind::Texture, EXTENSIONS@),
{
    assert(SOURCE@[0] != EXTRAS@[0]);
}

/// The names that the codec understands in an image differ from each other and
/// from the names that are kept as they are.
pub proof fn lemma_names_image()
    ensures
        BUFFER_VIEW@ != MIME_TYPE@,
        BUFFER_VIEW@ != URI@,
        MIME_TYPE@ != URI@,
        !allowed(Kind::Image, BUFFER_VIEW@),
        !allowed(Kind::Image, MIME_TYPE@),
        !allowed(Kind::Image, URI@),
{

}

/// The names that the codec understands in an accessor differ from each other and
/// from the names that are kept as they are.
pub proof fn lemma_names_accessor()
    ensures
        BUFFER_VIEW@ != BYTE_OFFSET@,
        BUFFER_VIEW@ != COMPONENT_TYPE@,
        BUFFER_VIEW@ != COUNT@,
        BUFFER_VIEW@ != KIND@,
        BUFFER_VIEW@ != NORMALIZED@,
        BYTE_OFFSET@ != COMPONENT_TYPE@,
        BYTE_OFFSET@ != COUNT@,
        BYTE_OFFSET@ != KIND@,
        BYTE_OFFSET@ != NORMALIZED@,
        COMPONENT_TYPE@ != COUNT@,
        COMPONENT_TYPE@ != KIND@,
        COMPONENT_TYPE@ != NORMALIZED@,
        COUNT@ != KIND@,
        COUNT@ != NORMALIZED@,
        KIND@ != NORMALIZED@,
        !allowed(Kind::Accessor, BUFFER_VIEW@),
        !allowed(Kind::Accessor, BYTE_OFFSET@),
        !allowed(Kind::Accessor, COMPONENT_TYPE@),
        !allowed(Kind::Accessor, COUNT@),
        !allowed(Kind::Accessor, KIND@),
        !allowed(Kind::Accessor, NORMALIZED@),
{
    assert(BUFFER_VIEW@[1] != BYTE_OFFSET@[1]);
    assert(BUFFER_VIEW@[0] != NORMALIZED@[0]);
    assert(BYTE_OFFSET@[0] != NORMALIZED@[0]);
    assert(KIND@[0] != NAME@[0]);
}

/// The names that the codec understands in a buffer view differ from each other and
/// from the names that are kept as they are.
pub proof fn lemma_names_view()
    ensures
        BUFFER@ != BYTE_OFFSET@,
        BUFFER@ != BYTE_LENGTH@,
        BUFFER@ != BYTE_STRIDE@,
        BYTE_OFFSET@ != BYTE_LENGTH@,
        BYTE_OFFSET@ != BYTE_STRIDE@,
        BYTE_LENGTH@ != BYTE_STRIDE@,
        !allowed(Kind::View, BUFFER@),
        !allowed(Kind::View, BYTE_OFFSET@),
        !allowed(Kind::View, BYTE_LENGTH@),
        !allowed(Kind::View, BYTE_STRIDE@),
{
    assert(BYTE_OFFSET@[4] != BYTE_LENGTH@[4]);
    assert(BYTE_OFFSET@[4] != BYTE_STRIDE@[4]);
    assert(BYTE_LENGTH@[4] != BYTE_STRIDE@[4]);
    assert(BUFFER@[0] != TARGET@[0]);
}

/// The names that the codec understands in a buffer differ from each other and
/// from the names that are kept as they are.
pub proof fn lemma_names_buffer()
    ensures
        BYTE_LENGTH@ != URI@,
        !allowed(Kind::Buffer, BYTE_LENGTH@),
        !allowed(Kind::Buffer, URI@),
{

}

} // verus!
