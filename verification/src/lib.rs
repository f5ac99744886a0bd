//! A processing pipeline for binary glTF (GLB) assets: a codec between the
//! container bytes and an in-memory document graph, structural transforms
//! on that graph, and entry points that wire them together.
use vstd::prelude::*;

pub mod acyclic;
pub mod bytes;
pub mod codec;
pub mod compact;
pub mod container;
pub mod dedup;
pub mod document;
pub mod entities;
pub mod error;
pub mod fields;
pub mod graph;
pub mod images;
pub mod json;
pub mod metadata;
pub mod names;
pub mod pipeline;
pub mod plan;
pub mod props;
pub mod prune;
pub mod references;
pub mod registry;
pub mod reorder;
pub mod schema;
pub mod textures;

use crate::entities::views;
use crate::fields::to_vec;
use crate::json::{duplicate_members, members_view, Json, JsonView, Member, MemberView};
use crate::names::{
    DC, DC_URI, EXT_MESHOPT_COMPRESSION, KHR_MATERIALS_EMISSIVE_STRENGTH, KHR_MATERIALS_IOR,
    KHR_MATERIALS_UNLIT, KHR_TEXTURE_TRANSFORM, KHR_XMP_JSON_LD,
};
use crate::pipeline::{process, process_spec, PipelineError, PipelineErrorView, Transform, TransformView};
use crate::registry::{capability_of, standard_entries, Capability, EntryView, Registry};
use crate::textures::{
    begin, default_config, session_spec, CompressConfig, Format, Slots, TextureSession, TextureSessionView,
};

verus! {

/// The namespace context of the packets that [`add_xmp_metadata`] makes:
/// the prefix `dc` for the Dublin Core elements.
pub open spec fn dublin_core() -> Seq<MemberView> {
    seq![MemberView { key: DC@, value: JsonView::Text(DC_URI@) }]
}

/// The transforms of [`add_xmp_metadata`]: one injection of a packet with
/// the Dublin Core context and the given properties.
pub open spec fn metadata_steps(properties: Seq<MemberView>) -> Seq<TransformView> {
    seq![TransformView::MetadataInject { context: dublin_core(), properties }]
}

/// The transforms of [`optimize_gltf`]: prune, then dedup.
pub open spec fn structure_steps() -> Seq<TransformView> {
    seq![TransformView::Prune, TransformView::Dedup]
}

/// The registry of [`optimize_gltf`]: the extensions the pipeline knows by
/// itself, and the mesh-optimization extension.
pub open spec fn structure_registry() -> Seq<EntryView> {
    standard_entries().push(
        EntryView { name: EXT_MESHOPT_COMPRESSION@, capability: Capability::MeshCompression },
    )
}

/// Starts optimizing the textures of an asset: decodes the container and
/// finds the images to compress, to WebP at quality 70 and at most 512 by
/// 512, normal maps left alone. The session that is returned asks for the
/// work of the outside codec, takes in its results and gives the encoded
/// output.
pub fn optimize_textures(input: &Vec<u8>) -> (r: Result<TextureSession, PipelineError>)
    ensures
        match r {
            Ok(s) => session_spec(input@, standard_entries(), default_config()) == Ok::<
                TextureSessionView,
                PipelineErrorView,
            >(s@) && s@.wf(),
            Err(e) => session_spec(input@, standard_entries(), default_config()) == Err::<
                TextureSessionView,
                PipelineErrorView,
            >(e@),
        },
{
    let config = CompressConfig {
        format: Format::Webp,
        quality: 70,
        max_width: 512,
        max_height: 512,
        exclude: Slots {
            base_color: false,
            metallic_roughness: false,
            normal: true,
            occlusion: false,
            emissive: false,
        },
    };
    begin(input, &Registry::standard(), config)
}

/// Attaches metadata to an asset: decodes the container, attaches at its
/// root, under `KHR_xmp_json_ld`, a packet with the context `dc` and the
/// properties given, and encodes the result. A property whose value is
/// neither a text nor a list of texts, or whose name lacks the prefix
/// `dc:`, fails the transform with `InvalidMetadata`.
pub fn add_xmp_metadata(input: &Vec<u8>, properties: &Vec<Member>) -> (r: Result<Vec<u8>, PipelineError>)
    ensures
        match r {
            Ok(bytes) => process_spec(input@, standard_entries(), metadata_steps(members_view(properties@)))
                == Ok::<Seq<u8>, PipelineErrorView>(bytes@),
            Err(e) => process_spec(input@, standard_entries(), metadata_steps(members_view(properties@)))
                == Err::<Seq<u8>, PipelineErrorView>(e@),
        },
{
    let registry = Registry::standard();
    let mut context: Vec<Member> = Vec::new();
    context.push(Member { key: to_vec(&DC), value: Json::Text(to_vec(&DC_URI)) });
    assert(members_view(context@) =~= dublin_core());
    let mut steps: Vec<Transform> = Vec::new();
    steps.push(Transform::MetadataInject { context, properties: duplicate_members(properties) });
    assert(views(steps@) =~= metadata_steps(members_view(properties@)));
    process(input, &registry, &steps)
}

/// The mesh-optimization extension is not among the extensions that the
/// pipeline knows by itself.
proof fn lemma_meshopt_unknown()
    ensures
        capability_of(standard_entries(), EXT_MESHOPT_COMPRESSION@) is None,
{
    reveal_with_fuel(crate::registry::capability_among, 6);
    assert(EXT_MESHOPT_COMPRESSION@[0] != KHR_XMP_JSON_LD@[0]);
    assert(EXT_MESHOPT_COMPRESSION@[0] != KHR_MATERIALS_UNLIT@[0]);
    assert(EXT_MESHOPT_COMPRESSION@[0] != KHR_MATERIALS_EMISSIVE_STRENGTH@[0]);
    assert(EXT_MESHOPT_COMPRESSION@[0] != KHR_MATERIALS_IOR@[0]);
    assert(EXT_MESHOPT_COMPRESSION@[0] != KHR_TEXTURE_TRANSFORM@[0]);
}

/// Optimizes the structure of an asset: decodes the container with the
/// mesh-optimization extension registered, prunes, deduplicates, and
/// encodes the result.
pub fn optimize_gltf(input: &Vec<u8>) -> (r: Result<Vec<u8>, PipelineError>)
    ensures
        match r {
            Ok(bytes) => process_spec(input@, structure_registry(), structure_steps()) == Ok::<
                Seq<u8>,
                PipelineErrorView,
            >(bytes@),
            Err(e) => process_spec(input@, structure_registry(), structure_steps()) == Err::<
                Seq<u8>,
                PipelineErrorView,
            >(e@),
        },
{
    let mut registry = Registry::standard();
    proof {
        lemma_meshopt_unknown();
    }
    let registered = registry.register(&EXT_MESHOPT_COMPRESSION, Capability::MeshCompression);
    let mut steps: Vec<Transform> = Vec::new();
    steps.push(Transform::Prune);
    steps.push(Transform::Dedup);
    assert(views(steps@) =~= structure_steps());
    process(input, &registry, &steps)
}

} // verus!
