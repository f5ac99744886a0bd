//! The member names of the glTF schema that the codec reads and writes,
//! each as the bytes of its ASCII spelling.
use vstd::prelude::*;

verus! {

/// `asset`
pub const ASSET: [u8; 5] = ['a' as u8, 's' as u8, 's' as u8, 'e' as u8, 't' as u8];

/// `version`
pub const VERSION: [u8; 7] = [
    'v' as u8, 'e' as u8, 'r' as u8, 's' as u8, 'i' as u8, 'o' as u8, 'n' as u8,
];

/// `scene`
pub const SCENE: [u8; 5] = ['s' as u8, 'c' as u8, 'e' as u8, 'n' as u8, 'e' as u8];

/// `scenes`
pub const SCENES: [u8; 6] = ['s' as u8, 'c' as u8, 'e' as u8, 'n' as u8, 'e' as u8, 's' as u8];

/// `nodes`
pub const NODES: [u8; 5] = ['n' as u8, 'o' as u8, 'd' as u8, 'e' as u8, 's' as u8];

/// `meshes`
pub const MESHES: [u8; 6] = ['m' as u8, 'e' as u8, 's' as u8, 'h' as u8, 'e' as u8, 's' as u8];

/// `materials`
pub const MATERIALS: [u8; 9] = [
    'm' as u8, 'a' as u8, 't' as u8, 'e' as u8, 'r' as u8, 'i' as u8, 'a' as u8, 'l' as u8,
    's' as u8,
];

/// `textures`
pub const TEXTURES: [u8; 8] = [
    't' as u8, 'e' as u8, 'x' as u8, 't' as u8, 'u' as u8, 'r' as u8, 'e' as u8, 's' as u8,
];

/// `images`
pub const IMAGES: [u8; 6] = ['i' as u8, 'm' as u8, 'a' as u8, 'g' as u8, 'e' as u8, 's' as u8];

/// `samplers`
pub const SAMPLERS: [u8; 8] = [
    's' as u8, 'a' as u8, 'm' as u8, 'p' as u8, 'l' as u8, 'e' as u8, 'r' as u8, 's' as u8,
];

/// `accessors`
pub const ACCESSORS: [u8; 9] = [
    'a' as u8, 'c' as u8, 'c' as u8, 'e' as u8, 's' as u8, 's' as u8, 'o' as u8, 'r' as u8,
    's' as u8,
];

/// `bufferViews`
pub const BUFFER_VIEWS: [u8; 11] = [
    'b' as u8, 'u' as u8, 'f' as u8, 'f' as u8, 'e' as u8, 'r' as u8, 'V' as u8, 'i' as u8,
    'e' as u8, 'w' as u8, 's' as u8,
];

/// `buffers`
pub const BUFFERS: [u8; 7] = [
    'b' as u8, 'u' as u8, 'f' as u8, 'f' as u8, 'e' as u8, 'r' as u8, 's' as u8,
];

/// `extensionsUsed`
pub const EXTENSIONS_USED: [u8; 14] = [
    'e' as u8, 'x' as u8, 't' as u8, 'e' as u8, 'n' as u8, 's' as u8, 'i' as u8, 'o' as u8,
    'n' as u8, 's' as u8, 'U' as u8, 's' as u8, 'e' as u8, 'd' as u8,
];

/// `extensionsRequired`
pub const EXTENSIONS_REQUIRED: [u8; 18] = [
    'e' as u8, 'x' as u8, 't' as u8, 'e' as u8, 'n' as u8, 's' as u8, 'i' as u8, 'o' as u8,
    'n' as u8, 's' as u8, 'R' as u8, 'e' as u8, 'q' as u8, 'u' as u8, 'i' as u8, 'r' as u8,
    'e' as u8, 'd' as u8,
];

/// `extensions`
pub const EXTENSIONS: [u8; 10] = [
    'e' as u8, 'x' as u8, 't' as u8, 'e' as u8, 'n' as u8, 's' as u8, 'i' as u8, 'o' as u8,
    'n' as u8, 's' as u8,
];

/// `extras`
pub const EXTRAS: [u8; 6] = ['e' as u8, 'x' as u8, 't' as u8, 'r' as u8, 'a' as u8, 's' as u8];

/// `name`
pub const NAME: [u8; 4] = ['n' as u8, 'a' as u8, 'm' as u8, 'e' as u8];

/// `generator`
pub const GENERATOR: [u8; 9] = [
    'g' as u8, 'e' as u8, 'n' as u8, 'e' as u8, 'r' as u8, 'a' as u8, 't' as u8, 'o' as u8,
    'r' as u8,
];

/// `copyright`
pub const COPYRIGHT: [u8; 9] = [
    'c' as u8, 'o' as u8, 'p' as u8, 'y' as u8, 'r' as u8, 'i' as u8, 'g' as u8, 'h' as u8,
    't' as u8,
];

/// `minVersion`
pub const MIN_VERSION: [u8; 10] = [
    'm' as u8, 'i' as u8, 'n' as u8, 'V' as u8, 'e' as u8, 'r' as u8, 's' as u8, 'i' as u8,
    'o' as u8, 'n' as u8,
];

/// `children`
pub const CHILDREN: [u8; 8] = [
    'c' as u8, 'h' as u8, 'i' as u8, 'l' as u8, 'd' as u8, 'r' as u8, 'e' as u8, 'n' as u8,
];

/// `mesh`
pub const MESH: [u8; 4] = ['m' as u8, 'e' as u8, 's' as u8, 'h' as u8];

/// `translation`
pub const TRANSLATION: [u8; 11] = [
    't' as u8, 'r' as u8, 'a' as u8, 'n' as u8, 's' as u8, 'l' as u8, 'a' as u8, 't' as u8,
    'i' as u8, 'o' as u8, 'n' as u8,
];

/// `rotation`
pub const ROTATION: [u8; 8] = [
    'r' as u8, 'o' as u8, 't' as u8, 'a' as u8, 't' as u8, 'i' as u8, 'o' as u8, 'n' as u8,
];

/// `scale`
pub const SCALE: [u8; 5] = ['s' as u8, 'c' as u8, 'a' as u8, 'l' as u8, 'e' as u8];

/// `matrix`
pub const MATRIX: [u8; 6] = ['m' as u8, 'a' as u8, 't' as u8, 'r' as u8, 'i' as u8, 'x' as u8];

/// `primitives`
pub const PRIMITIVES: [u8; 10] = [
    'p' as u8, 'r' as u8, 'i' as u8, 'm' as u8, 'i' as u8, 't' as u8, 'i' as u8, 'v' as u8,
    'e' as u8, 's' as u8,
];

/// `attributes`
pub const ATTRIBUTES: [u8; 10] = [
    'a' as u8, 't' as u8, 't' as u8, 'r' as u8, 'i' as u8, 'b' as u8, 'u' as u8, 't' as u8,
    'e' as u8, 's' as u8,
];

/// `indices`
pub const INDICES: [u8; 7] = [
    'i' as u8, 'n' as u8, 'd' as u8, 'i' as u8, 'c' as u8, 'e' as u8, 's' as u8,
];

/// `material`
pub const MATERIAL: [u8; 8] = [
    'm' as u8, 'a' as u8, 't' as u8, 'e' as u8, 'r' as u8, 'i' as u8, 'a' as u8, 'l' as u8,
];

/// `mode`
pub const MODE: [u8; 4] = ['m' as u8, 'o' as u8, 'd' as u8, 'e' as u8];

/// `pbrMetallicRoughness`
pub const PBR_METALLIC_ROUGHNESS: [u8; 20] = [
    'p' as u8, 'b' as u8, 'r' as u8, 'M' as u8, 'e' as u8, 't' as u8, 'a' as u8, 'l' as u8,
    'l' as u8, 'i' as u8, 'c' as u8, 'R' as u8, 'o' as u8, 'u' as u8, 'g' as u8, 'h' as u8,
    'n' as u8, 'e' as u8, 's' as u8, 's' as u8,
];

/// `baseColorTexture`
pub const BASE_COLOR_TEXTURE: [u8; 16] = [
    'b' as u8, 'a' as u8, 's' as u8, 'e' as u8, 'C' as u8, 'o' as u8, 'l' as u8, 'o' as u8,
    'r' as u8, 'T' as u8, 'e' as u8, 'x' as u8, 't' as u8, 'u' as u8, 'r' as u8, 'e' as u8,
];

/// `metallicRoughnessTexture`
pub const METALLIC_ROUGHNESS_TEXTURE: [u8; 24] = [
    'm' as u8, 'e' as u8, 't' as u8, 'a' as u8, 'l' as u8, 'l' as u8, 'i' as u8, 'c' as u8,
    'R' as u8, 'o' as u8, 'u' as u8, 'g' as u8, 'h' as u8, 'n' as u8, 'e' as u8, 's' as u8,
    's' as u8, 'T' as u8, 'e' as u8, 'x' as u8, 't' as u8, 'u' as u8, 'r' as u8, 'e' as u8,
];

/// `normalTexture`
pub const NORMAL_TEXTURE: [u8; 13] = [
    'n' as u8, 'o' as u8, 'r' as u8, 'm' as u8, 'a' as u8, 'l' as u8, 'T' as u8, 'e' as u8,
    'x' as u8, 't' as u8, 'u' as u8, 'r' as u8, 'e' as u8,
];

/// `occlusionTexture`
pub const OCCLUSION_TEXTURE: [u8; 16] = [
    'o' as u8, 'c' as u8, 'c' as u8, 'l' as u8, 'u' as u8, 's' as u8, 'i' as u8, 'o' as u8,
    'n' as u8, 'T' as u8, 'e' as u8, 'x' as u8, 't' as u8, 'u' as u8, 'r' as u8, 'e' as u8,
];

/// `emissiveTexture`
pub const EMISSIVE_TEXTURE: [u8; 15] = [
    'e' as u8, 'm' as u8, 'i' as u8, 's' as u8, 's' as u8, 'i' as u8, 'v' as u8, 'e' as u8,
    'T' as u8, 'e' as u8, 'x' as u8, 't' as u8, 'u' as u8, 'r' as u8, 'e' as u8,
];

/// `baseColorFactor`
pub const BASE_COLOR_FACTOR: [u8; 15] = [
    'b' as u8, 'a' as u8, 's' as u8, 'e' as u8, 'C' as u8, 'o' as u8, 'l' as u8, 'o' as u8,
    'r' as u8, 'F' as u8, 'a' as u8, 'c' as u8, 't' as u8, 'o' as u8, 'r' as u8,
];

/// `metallicFactor`
pub const METALLIC_FACTOR: [u8; 14] = [
    'm' as u8, 'e' as u8, 't' as u8, 'a' as u8, 'l' as u8, 'l' as u8, 'i' as u8, 'c' as u8,
    'F' as u8, 'a' as u8, 'c' as u8, 't' as u8, 'o' as u8, 'r' as u8,
];

/// `roughnessFactor`
pub const ROUGHNESS_FACTOR: [u8; 15] = [
    'r' as u8, 'o' as u8, 'u' as u8, 'g' as u8, 'h' as u8, 'n' as u8, 'e' as u8, 's' as u8,
    's' as u8, 'F' as u8, 'a' as u8, 'c' as u8, 't' as u8, 'o' as u8, 'r' as u8,
];

/// `emissiveFactor`
pub const EMISSIVE_FACTOR: [u8; 14] = [
    'e' as u8, 'm' as u8, 'i' as u8, 's' as u8, 's' as u8, 'i' as u8, 'v' as u8, 'e' as u8,
    'F' as u8, 'a' as u8, 'c' as u8, 't' as u8, 'o' as u8, 'r' as u8,
];

/// `alphaMode`
pub const ALPHA_MODE: [u8; 9] = [
    'a' as u8, 'l' as u8, 'p' as u8, 'h' as u8, 'a' as u8, 'M' as u8, 'o' as u8, 'd' as u8,
    'e' as u8,
];

/// `alphaCutoff`
pub const ALPHA_CUTOFF: [u8; 11] = [
    'a' as u8, 'l' as u8, 'p' as u8, 'h' as u8, 'a' as u8, 'C' as u8, 'u' as u8, 't' as u8,
    'o' as u8, 'f' as u8, 'f' as u8,
];

/// `doubleSided`
pub const DOUBLE_SIDED: [u8; 11] = [
    'd' as u8, 'o' as u8, 'u' as u8, 'b' as u8, 'l' as u8, 'e' as u8, 'S' as u8, 'i' as u8,
    'd' as u8, 'e' as u8, 'd' as u8,
];

/// `index`
pub const INDEX: [u8; 5] = ['i' as u8, 'n' as u8, 'd' as u8, 'e' as u8, 'x' as u8];

/// `texCoord`
pub const TEX_COORD: [u8; 8] = [
    't' as u8, 'e' as u8, 'x' as u8, 'C' as u8, 'o' as u8, 'o' as u8, 'r' as u8, 'd' as u8,
];

/// `strength`
pub const STRENGTH: [u8; 8] = [
    's' as u8, 't' as u8, 'r' as u8, 'e' as u8, 'n' as u8, 'g' as u8, 't' as u8, 'h' as u8,
];

/// `source`
pub const SOURCE: [u8; 6] = ['s' as u8, 'o' as u8, 'u' as u8, 'r' as u8, 'c' as u8, 'e' as u8];

/// `sampler`
pub const SAMPLER: [u8; 7] = [
    's' as u8, 'a' as u8, 'm' as u8, 'p' as u8, 'l' as u8, 'e' as u8, 'r' as u8,
];

/// `bufferView`
pub const BUFFER_VIEW: [u8; 10] = [
    'b' as u8, 'u' as u8, 'f' as u8, 'f' as u8, 'e' as u8, 'r' as u8, 'V' as u8, 'i' as u8,
    'e' as u8, 'w' as u8,
];

/// `mimeType`
pub const MIME_TYPE: [u8; 8] = [
    'm' as u8, 'i' as u8, 'm' as u8, 'e' as u8, 'T' as u8, 'y' as u8, 'p' as u8, 'e' as u8,
];

/// `uri`
pub const URI: [u8; 3] = ['u' as u8, 'r' as u8, 'i' as u8];

/// `magFilter`
pub const MAG_FILTER: [u8; 9] = [
    'm' as u8, 'a' as u8, 'g' as u8, 'F' as u8, 'i' as u8, 'l' as u8, 't' as u8, 'e' as u8,
    'r' as u8,
];

/// `minFilter`
pub const MIN_FILTER: [u8; 9] = [
    'm' as u8, 'i' as u8, 'n' as u8, 'F' as u8, 'i' as u8, 'l' as u8, 't' as u8, 'e' as u8,
    'r' as u8,
];

/// `wrapS`
pub const WRAP_S: [u8; 5] = ['w' as u8, 'r' as u8, 'a' as u8, 'p' as u8, 'S' as u8];

/// `wrapT`
pub const WRAP_T: [u8; 5] = ['w' as u8, 'r' as u8, 'a' as u8, 'p' as u8, 'T' as u8];

/// `byteOffset`
pub const BYTE_OFFSET: [u8; 10] = [
    'b' as u8, 'y' as u8, 't' as u8, 'e' as u8, 'O' as u8, 'f' as u8, 'f' as u8, 's' as u8,
    'e' as u8, 't' as u8,
];

/// `componentType`
pub const COMPONENT_TYPE: [u8; 13] = [
    'c' as u8, 'o' as u8, 'm' as u8, 'p' as u8, 'o' as u8, 'n' as u8, 'e' as u8, 'n' as u8,
    't' as u8, 'T' as u8, 'y' as u8, 'p' as u8, 'e' as u8,
];

/// `count`
pub const COUNT: [u8; 5] = ['c' as u8, 'o' as u8, 'u' as u8, 'n' as u8, 't' as u8];

/// `type`
pub const KIND: [u8; 4] = ['t' as u8, 'y' as u8, 'p' as u8, 'e' as u8];

/// `normalized`
pub const NORMALIZED: [u8; 10] = [
    'n' as u8, 'o' as u8, 'r' as u8, 'm' as u8, 'a' as u8, 'l' as u8, 'i' as u8, 'z' as u8,
    'e' as u8, 'd' as u8,
];

/// `min`
pub const MIN: [u8; 3] = ['m' as u8, 'i' as u8, 'n' as u8];

/// `max`
pub const MAX: [u8; 3] = ['m' as u8, 'a' as u8, 'x' as u8];

/// `buffer`
pub const BUFFER: [u8; 6] = ['b' as u8, 'u' as u8, 'f' as u8, 'f' as u8, 'e' as u8, 'r' as u8];

/// `byteLength`
pub const BYTE_LENGTH: [u8; 10] = [
    'b' as u8, 'y' as u8, 't' as u8, 'e' as u8, 'L' as u8, 'e' as u8, 'n' as u8, 'g' as u8,
    't' as u8, 'h' as u8,
];

/// `byteStride`
pub const BYTE_STRIDE: [u8; 10] = [
    'b' as u8, 'y' as u8, 't' as u8, 'e' as u8, 'S' as u8, 't' as u8, 'r' as u8, 'i' as u8,
    'd' as u8, 'e' as u8,
];

/// `target`
pub const TARGET: [u8; 6] = ['t' as u8, 'a' as u8, 'r' as u8, 'g' as u8, 'e' as u8, 't' as u8];

/// The version of glTF that this codec reads and writes: `2.0`
pub const TWO_POINT_ZERO: [u8; 3] = ['2' as u8, '.' as u8, '0' as u8];

/// `SCALAR`
pub const SCALAR: [u8; 6] = ['S' as u8, 'C' as u8, 'A' as u8, 'L' as u8, 'A' as u8, 'R' as u8];

/// `VEC2`
pub const VEC2: [u8; 4] = ['V' as u8, 'E' as u8, 'C' as u8, '2' as u8];

/// `VEC3`
pub const VEC3: [u8; 4] = ['V' as u8, 'E' as u8, 'C' as u8, '3' as u8];

/// `VEC4`
pub const VEC4: [u8; 4] = ['V' as u8, 'E' as u8, 'C' as u8, '4' as u8];

/// `MAT2`
pub const MAT2: [u8; 4] = ['M' as u8, 'A' as u8, 'T' as u8, '2' as u8];

/// `MAT3`
pub const MAT3: [u8; 4] = ['M' as u8, 'A' as u8, 'T' as u8, '3' as u8];

/// `MAT4`
pub const MAT4: [u8; 4] = ['M' as u8, 'A' as u8, 'T' as u8, '4' as u8];

/// The name of the metadata extension: `KHR_xmp_json_ld`
pub const KHR_XMP_JSON_LD: [u8; 15] = [
    'K' as u8, 'H' as u8, 'R' as u8, '_' as u8, 'x' as u8, 'm' as u8, 'p' as u8, '_' as u8,
    'j' as u8, 's' as u8, 'o' as u8, 'n' as u8, '_' as u8, 'l' as u8, 'd' as u8,
];

/// The name of the mesh-optimization extension: `EXT_meshopt_compression`
pub const EXT_MESHOPT_COMPRESSION: [u8; 23] = [
    'E' as u8, 'X' as u8, 'T' as u8, '_' as u8, 'm' as u8, 'e' as u8, 's' as u8, 'h' as u8,
    'o' as u8, 'p' as u8, 't' as u8, '_' as u8, 'c' as u8, 'o' as u8, 'm' as u8, 'p' as u8,
    'r' as u8, 'e' as u8, 's' as u8, 's' as u8, 'i' as u8, 'o' as u8, 'n' as u8,
];

/// `KHR_materials_unlit`
pub const KHR_MATERIALS_UNLIT: [u8; 19] = [
    'K' as u8, 'H' as u8, 'R' as u8, '_' as u8, 'm' as u8, 'a' as u8, 't' as u8, 'e' as u8,
    'r' as u8, 'i' as u8, 'a' as u8, 'l' as u8, 's' as u8, '_' as u8, 'u' as u8, 'n' as u8,
    'l' as u8, 'i' as u8, 't' as u8,
];

/// `KHR_materials_emissive_strength`
pub const KHR_MATERIALS_EMISSIVE_STRENGTH: [u8; 31] = [
    'K' as u8, 'H' as u8, 'R' as u8, '_' as u8, 'm' as u8, 'a' as u8, 't' as u8, 'e' as u8,
    'r' as u8, 'i' as u8, 'a' as u8, 'l' as u8, 's' as u8, '_' as u8, 'e' as u8, 'm' as u8,
    'i' as u8, 's' as u8, 's' as u8, 'i' as u8, 'v' as u8, 'e' as u8, '_' as u8, 's' as u8,
    't' as u8, 'r' as u8, 'e' as u8, 'n' as u8, 'g' as u8, 't' as u8, 'h' as u8,
];

/// `KHR_materials_ior`
pub const KHR_MATERIALS_IOR: [u8; 17] = [
    'K' as u8, 'H' as u8, 'R' as u8, '_' as u8, 'm' as u8, 'a' as u8, 't' as u8, 'e' as u8,
    'r' as u8, 'i' as u8, 'a' as u8, 'l' as u8, 's' as u8, '_' as u8, 'i' as u8, 'o' as u8,
    'r' as u8,
];

/// `KHR_texture_transform`
pub const KHR_TEXTURE_TRANSFORM: [u8; 21] = [
    'K' as u8, 'H' as u8, 'R' as u8, '_' as u8, 't' as u8, 'e' as u8, 'x' as u8, 't' as u8,
    'u' as u8, 'r' as u8, 'e' as u8, '_' as u8, 't' as u8, 'r' as u8, 'a' as u8, 'n' as u8,
    's' as u8, 'f' as u8, 'o' as u8, 'r' as u8, 'm' as u8,
];

/// `packets`
pub const PACKETS: [u8; 7] = [
    'p' as u8, 'a' as u8, 'c' as u8, 'k' as u8, 'e' as u8, 't' as u8, 's' as u8,
];

/// `@context`
pub const CONTEXT: [u8; 8] = [
    '@' as u8, 'c' as u8, 'o' as u8, 'n' as u8, 't' as u8, 'e' as u8, 'x' as u8, 't' as u8,
];

/// `dc`
pub const DC: [u8; 2] = ['d' as u8, 'c' as u8];

/// The namespace of the Dublin Core elements: `http://purl.org/dc/elements/1.1/`
pub const DC_URI: [u8; 32] = [
    'h' as u8, 't' as u8, 't' as u8, 'p' as u8, ':' as u8, '/' as u8, '/' as u8, 'p' as u8,
    'u' as u8, 'r' as u8, 'l' as u8, '.' as u8, 'o' as u8, 'r' as u8, 'g' as u8, '/' as u8,
    'd' as u8, 'c' as u8, '/' as u8, 'e' as u8, 'l' as u8, 'e' as u8, 'm' as u8, 'e' as u8,
    'n' as u8, 't' as u8, 's' as u8, '/' as u8, '1' as u8, '.' as u8, '1' as u8, '/' as u8,
];

/// `image/webp`
pub const IMAGE_WEBP: [u8; 10] = [
    'i' as u8, 'm' as u8, 'a' as u8, 'g' as u8, 'e' as u8, '/' as u8, 'w' as u8, 'e' as u8,
    'b' as u8, 'p' as u8,
];

/// `image/jpeg`
pub const IMAGE_JPEG: [u8; 10] = [
    'i' as u8, 'm' as u8, 'a' as u8, 'g' as u8, 'e' as u8, '/' as u8, 'j' as u8, 'p' as u8,
    'e' as u8, 'g' as u8,
];

/// `image/png`
pub const IMAGE_PNG: [u8; 9] = [
    'i' as u8, 'm' as u8, 'a' as u8, 'g' as u8, 'e' as u8, '/' as u8, 'p' as u8, 'n' as u8,
    'g' as u8,
];

/// `image/avif`
pub const IMAGE_AVIF: [u8; 10] = [
    'i' as u8, 'm' as u8, 'a' as u8, 'g' as u8, 'e' as u8, '/' as u8, 'a' as u8, 'v' as u8,
    'i' as u8, 'f' as u8,
];

} // verus!
