use glb_pipeline::codec::{decode, encode, Decoded};
use glb_pipeline::container::join;
use glb_pipeline::dedup::dedup;
use glb_pipeline::document::Document;
use glb_pipeline::error::{Error, Malformed};
use glb_pipeline::json::parse::parse;
use glb_pipeline::json::{Json, Member};
use glb_pipeline::metadata::inject_metadata;
use glb_pipeline::pipeline::{process, run, PipelineError, Stage, Transform};
use glb_pipeline::prune::prune;
use glb_pipeline::registry::{Capability, Registry};
use glb_pipeline::{add_xmp_metadata, optimize_gltf};

const SCENE: &str = r#"{
  "asset": {"version": "2.0", "generator": "test"},
  "scene": 0,
  "scenes": [{"nodes": [0]}],
  "nodes": [
    {"name": "root", "children": [1], "translation": [1.5, 0, -2e0]},
    {"mesh": 0},
    {"name": "orphan", "mesh": 1}
  ],
  "meshes": [
    {"primitives": [{"attributes": {"POSITION": 0}, "indices": 1, "material": 0}]},
    {"primitives": [{"attributes": {"POSITION": 2}, "material": 1}]}
  ],
  "materials": [
    {"pbrMetallicRoughness": {"baseColorTexture": {"index": 0}, "metallicFactor": 0.5},
     "normalTexture": {"index": 1, "scale": 2}},
    {"name": "unused", "emissiveTexture": {"index": 2}}
  ],
  "textures": [{"source": 0, "sampler": 0}, {"source": 1}, {"source": 0}],
  "images": [{"bufferView": 2, "mimeType": "image/png"}, {"uri": "normal.png"}],
  "samplers": [{"magFilter": 9729}],
  "accessors": [
    {"bufferView": 0, "componentType": 5126, "count": 3, "type": "VEC3", "min": [0, 0, 0]},
    {"bufferView": 1, "componentType": 5123, "count": 3, "type": "SCALAR"},
    {"bufferView": 0, "componentType": 5126, "count": 3, "type": "VEC3"}
  ],
  "bufferViews": [
    {"buffer": 0, "byteLength": 36},
    {"buffer": 0, "byteOffset": 36, "byteLength": 6},
    {"buffer": 0, "byteOffset": 44, "byteLength": 4}
  ],
  "buffers": [{"byteLength": 48}]
}"#;

fn payload() -> Vec<u8> {
    (0u8..48).collect()
}

fn glb(json: &str, bin: Option<Vec<u8>>) -> Vec<u8> {
    join(&json.as_bytes().to_vec(), &bin).unwrap()
}

fn sample() -> Vec<u8> {
    glb(SCENE, Some(payload()))
}

fn read(bytes: &Vec<u8>) -> Document {
    decode(bytes, &Registry::standard()).unwrap().document
}

fn text(s: &str) -> Json {
    Json::Text(s.as_bytes().to_vec())
}

fn member(k: &str, v: Json) -> Member {
    Member { key: k.as_bytes().to_vec(), value: v }
}

fn malformed(m: Malformed) -> PipelineError {
    PipelineError { stage: Stage::Decode, error: Error::MalformedAsset(m) }
}

#[test]
fn decode_builds_the_graph() {
    let doc = read(&sample());
    let root = &doc.root;
    assert_eq!(root.asset.version, b"2.0".to_vec());
    assert_eq!(root.asset.props, vec![member("generator", text("test"))]);
    assert_eq!(root.scene, Some(0));
    assert_eq!(root.scenes[0].nodes, vec![0]);
    assert_eq!(root.nodes.len(), 3);
    assert_eq!(root.nodes[0].children, vec![1]);
    assert_eq!(root.nodes[0].mesh, None);
    assert_eq!(root.nodes[0].props[0], member("name", text("root")));
    assert_eq!(
        root.nodes[0].props[1],
        member(
            "translation",
            Json::Array(vec![
                Json::Number(b"1.5".to_vec()),
                Json::Number(b"0".to_vec()),
                Json::Number(b"-2e0".to_vec()),
            ])
        )
    );
    assert_eq!(root.nodes[1].mesh, Some(0));
    let p = &root.meshes[0].primitives[0];
    assert_eq!(p.attributes[0].name, b"POSITION".to_vec());
    assert_eq!(p.attributes[0].accessor, 0);
    assert_eq!(p.indices, Some(1));
    assert_eq!(p.material, Some(0));
    let m = &root.materials[0];
    assert_eq!(m.pbr.as_ref().unwrap().base_color.as_ref().unwrap().texture, 0);
    assert_eq!(m.pbr.as_ref().unwrap().props[0].key, b"metallicFactor".to_vec());
    assert_eq!(m.normal.as_ref().unwrap().texture, 1);
    assert_eq!(m.normal.as_ref().unwrap().props[0].key, b"scale".to_vec());
    assert_eq!(root.textures[0].source, Some(0));
    assert_eq!(root.textures[0].sampler, Some(0));
    assert_eq!(root.images[0].view, Some(2));
    assert_eq!(root.images[0].mime, Some(b"image/png".to_vec()));
    assert_eq!(root.images[1].uri, Some(b"normal.png".to_vec()));
    assert_eq!(root.accessors[0].component, 5126);
    assert_eq!(root.accessors[0].count, 3);
    assert_eq!(root.accessors[0].kind, b"VEC3".to_vec());
    assert_eq!(root.accessors[0].offset, 0);
    assert!(!root.accessors[0].normalized);
    assert_eq!(root.views[1].offset, 36);
    assert_eq!(root.views[1].length, 6);
    assert_eq!(root.buffers[0].length, 48);
    assert_eq!(doc.data, vec![payload()]);
}

#[test]
fn round_trip_gives_the_same_document() {
    let doc = read(&sample());
    let bytes = encode(&doc).unwrap();
    assert_eq!(read(&bytes), doc);
    assert_eq!(encode(&read(&bytes)).unwrap(), bytes);
}

#[test]
fn decode_drops_members_it_does_not_carry() {
    let json = r#"{"asset":{"version":"2.0"},"nodes":[{"name":"n","camera":0,"weights":[1]}],"cameras":[{}]}"#;
    let doc = read(&glb(json, None));
    assert_eq!(doc.root.nodes[0].props, vec![member("name", text("n"))]);
    let out = encode(&doc).unwrap();
    let text = String::from_utf8(out[20..].to_vec()).unwrap();
    assert_eq!(text.trim_end(), r#"{"asset":{"version":"2.0"},"nodes":[{"name":"n"}]}"#);
}

#[test]
fn decode_rejects_what_is_no_scene_description() {
    let reg = Registry::standard();
    let bad = |json: &str, bin: Option<Vec<u8>>, why: Malformed| {
        assert_eq!(decode(&glb(json, bin), &reg), Err(Error::MalformedAsset(why)), "{}", json);
    };
    bad("{", None, Malformed::BadJson);
    bad("[]", None, Malformed::BadSchema);
    bad("{}", None, Malformed::BadSchema);
    bad(r#"{"asset":{"version":"1.0"}}"#, None, Malformed::BadSchema);
    bad(r#"{"asset":{"version":"2.0"},"nodes":[{"mesh":0}]}"#, None, Malformed::BadSchema);
    bad(r#"{"asset":{"version":"2.0"},"nodes":[{"children":[1]}]}"#, None, Malformed::BadSchema);
    bad(r#"{"asset":{"version":"2.0"},"nodes":[{"mesh":-1}]}"#, None, Malformed::BadSchema);
    bad(r#"{"asset":{"version":"2.0"},"nodes":[{"mesh":1.0}]}"#, None, Malformed::BadSchema);
    bad(r#"{"asset":{"version":"2.0"},"scene":0}"#, None, Malformed::BadSchema);
    bad(r#"{"asset":{"version":"2.0"},"images":[{}]}"#, None, Malformed::BadSchema);
    bad(r#"{"asset":{"version":"2.0"},"buffers":[{"byteLength":4,"uri":"a.bin"}]}"#, None, Malformed::BadSchema);
    bad(r#"{"asset":{"version":"2.0"},"buffers":[{"byteLength":4},{"byteLength":4}]}"#, None, Malformed::BadSchema);
    bad(
        r#"{"asset":{"version":"2.0"},"bufferViews":[{"buffer":0,"byteOffset":2,"byteLength":3}],"buffers":[{"byteLength":4}]}"#,
        Some(vec![0; 4]),
        Malformed::BadSchema,
    );
    bad(
        r#"{"asset":{"version":"2.0"},"accessors":[{"bufferView":0,"componentType":5126,"count":2,"type":"VEC3"}],"bufferViews":[{"buffer":0,"byteLength":20}],"buffers":[{"byteLength":20}]}"#,
        Some(vec![0; 20]),
        Malformed::BadSchema,
    );
    bad(
        r#"{"asset":{"version":"2.0"},"accessors":[{"componentType":1,"count":2,"type":"VEC3"}]}"#,
        None,
        Malformed::BadSchema,
    );
    bad(r#"{"asset":{"version":"2.0"},"buffers":[{"byteLength":4}]}"#, None, Malformed::BadBinary);
    bad(r#"{"asset":{"version":"2.0"},"buffers":[{"byteLength":5}]}"#, Some(vec![0; 4]), Malformed::BadBinary);
    bad(r#"{"asset":{"version":"2.0"},"buffers":[{"byteLength":4}]}"#, Some(vec![0; 8]), Malformed::BadBinary);
}

#[test]
fn accessor_with_stride_must_fit_its_view() {
    let json = |length: usize| {
        format!(
            r#"{{"asset":{{"version":"2.0"}},"accessors":[{{"bufferView":0,"byteOffset":4,"componentType":5126,"count":2,"type":"VEC3"}}],"bufferViews":[{{"buffer":0,"byteLength":{},"byteStride":16}}],"buffers":[{{"byteLength":{}}}]}}"#,
            length, length
        )
    };
    let reg = Registry::standard();
    assert!(decode(&glb(&json(32), Some(vec![0; 32])), &reg).is_ok());
    assert_eq!(
        decode(&glb(&json(28), Some(vec![0; 28])), &reg),
        Err(Error::MalformedAsset(Malformed::BadSchema))
    );
}

#[test]
fn decode_checks_extensions_against_the_registry() {
    let json = r#"{"asset":{"version":"2.0"},"extensionsUsed":["KHR_materials_unlit","X_other","X_needed"],"extensionsRequired":["X_needed"],"extensions":{"X_other":{"a":1}}}"#;
    let bytes = glb(json, None);
    let mut reg = Registry::standard();
    assert_eq!(decode(&bytes, &reg), Err(Error::UnsupportedExtension(b"X_needed".to_vec())));
    assert_eq!(reg.register(b"X_needed", Capability::Passthrough), Ok(()));
    let Decoded { document, skipped } = decode(&bytes, &reg).unwrap();
    assert_eq!(skipped, vec![b"X_other".to_vec()]);
    assert_eq!(document.root.extensions[0].key, b"X_other".to_vec());
    assert_eq!(decode(&encode(&document).unwrap(), &reg).unwrap().document, document);
}

#[test]
fn decode_lets_the_capability_judge_the_payload() {
    let reg = Registry::standard();
    let good = r#"{"asset":{"version":"2.0"},"extensions":{"KHR_xmp_json_ld":{"packets":[{}]}}}"#;
    assert!(decode(&glb(good, None), &reg).is_ok());
    let bad = r#"{"asset":{"version":"2.0"},"extensions":{"KHR_xmp_json_ld":{"packets":[1]}}}"#;
    assert_eq!(decode(&glb(bad, None), &reg), Err(Error::MalformedAsset(Malformed::BadSchema)));
}

#[test]
fn registry_refuses_a_second_registration() {
    let mut reg = Registry::new();
    assert_eq!(reg.lookup(&b"a".to_vec()), None);
    assert_eq!(reg.register(b"a", Capability::Metadata), Ok(()));
    assert_eq!(reg.register(b"a", Capability::Passthrough), Err(Error::DuplicateExtension(b"a".to_vec())));
    assert_eq!(reg.lookup(&b"a".to_vec()), Some(Capability::Metadata));
    assert_eq!(reg.entries.len(), 1);
    assert_eq!(
        Registry::standard().register(b"KHR_xmp_json_ld", Capability::Metadata),
        Err(Error::DuplicateExtension(b"KHR_xmp_json_ld".to_vec()))
    );
}

#[test]
fn prune_removes_what_nothing_refers_to() {
    let mut doc = read(&sample());
    prune(&mut doc);
    let root = &doc.root;
    assert_eq!(root.nodes.len(), 2);
    assert_eq!(root.meshes.len(), 1);
    assert_eq!(root.materials.len(), 1);
    assert_eq!(root.textures.len(), 2);
    assert_eq!(root.accessors.len(), 2);
    assert_eq!(root.nodes[0].children, vec![1]);
    assert_eq!(root.nodes[1].mesh, Some(0));
    assert_eq!(root.meshes[0].primitives[0].material, Some(0));
    assert_eq!(root.images.len(), 2);
    assert_eq!(doc.data, vec![payload()]);
    assert!(root.check());
}

#[test]
fn prune_renumbers_references() {
    let json = r#"{"asset":{"version":"2.0"},"scenes":[{"nodes":[2]}],"nodes":[{"mesh":0},{},{"children":[3],"mesh":1},{"mesh":1}],"meshes":[{"name":"a"},{"name":"b"}]}"#;
    let mut doc = read(&glb(json, None));
    prune(&mut doc);
    let root = &doc.root;
    assert_eq!(root.scenes[0].nodes, vec![0]);
    assert_eq!(root.nodes.len(), 2);
    assert_eq!(root.nodes[0].children, vec![1]);
    assert_eq!(root.nodes[0].mesh, Some(0));
    assert_eq!(root.nodes[1].mesh, Some(0));
    assert_eq!(root.meshes.len(), 1);
    assert_eq!(root.meshes[0].props, vec![member("name", text("b"))]);
}

#[test]
fn prune_twice_is_prune_once() {
    let mut once = read(&sample());
    prune(&mut once);
    let mut twice = read(&sample());
    prune(&mut twice);
    prune(&mut twice);
    assert_eq!(once, twice);
}

const TWINS: &str = r#"{"asset":{"version":"2.0"},"scenes":[{"nodes":[0,1,2]}],
  "nodes":[{"mesh":0},{"mesh":1},{"mesh":2}],
  "meshes":[{"primitives":[{"material":1}]},{"primitives":[{"material":2}]},{"primitives":[{"material":0}]}],
  "materials":[{"name":"A","normalTexture":{"index":0}},{"name":"B","normalTexture":{"index":1}},{"name":"A","normalTexture":{"index":2}}],
  "textures":[{"source":0},{"source":1},{"source":0}],
  "images":[{"uri":"a.png"},{"uri":"b.png"}]}"#;

#[test]
fn dedup_merges_into_the_first() {
    let mut doc = read(&glb(TWINS, None));
    dedup(&mut doc);
    let root = &doc.root;
    assert_eq!(root.textures.len(), 2);
    assert_eq!(root.materials.len(), 2);
    assert_eq!(root.materials[0].props, vec![member("name", text("A"))]);
    assert_eq!(root.materials[0].normal.as_ref().unwrap().texture, 0);
    assert_eq!(root.materials[1].props, vec![member("name", text("B"))]);
    assert_eq!(root.materials[1].normal.as_ref().unwrap().texture, 1);
    assert_eq!(root.meshes.len(), 2);
    assert_eq!(root.meshes[0].primitives[0].material, Some(1));
    assert_eq!(root.meshes[1].primitives[0].material, Some(0));
    assert_eq!(root.nodes[0].mesh, Some(0));
    assert_eq!(root.nodes[1].mesh, Some(1));
    assert_eq!(root.nodes[2].mesh, Some(1));
    assert!(root.check());
}

#[test]
fn dedup_leaves_distinct_entities() {
    let mut doc = read(&sample());
    let before = read(&sample());
    dedup(&mut doc);
    assert_eq!(doc.root.materials, before.root.materials);
    assert_eq!(doc.root.meshes, before.root.meshes);
    assert_eq!(doc.root.textures, before.root.textures);
}

#[test]
fn optimize_gltf_prunes_then_merges() {
    let out = optimize_gltf(&sample()).unwrap();
    let mut want = read(&sample());
    prune(&mut want);
    dedup(&mut want);
    assert_eq!(read(&out), want);
    let twins = read(&optimize_gltf(&glb(TWINS, None)).unwrap());
    assert_eq!(twins.root.materials.len(), 2);
    assert_eq!(twins.root.meshes.len(), 2);
}

#[test]
fn add_xmp_metadata_attaches_a_packet() {
    let props = vec![member("dc:Creator", Json::Array(vec![text("Alice")]))];
    let out = add_xmp_metadata(&sample(), &props).unwrap();
    let doc = read(&out);
    assert_eq!(doc.root.extensions_used, vec![b"KHR_xmp_json_ld".to_vec()]);
    assert_eq!(doc.root.extensions.len(), 1);
    assert_eq!(doc.root.extensions[0].key, b"KHR_xmp_json_ld".to_vec());
    let want = parse(
        &br#"{"packets":[{"@context":{"dc":"http://purl.org/dc/elements/1.1/"},"dc:Creator":["Alice"]}]}"#
            .to_vec(),
    )
    .unwrap();
    assert_eq!(doc.root.extensions[0].value, want);
    let text = String::from_utf8(out[20..].to_vec()).unwrap();
    assert!(text.contains(
        r#""extensionsUsed":["KHR_xmp_json_ld"],"extensions":{"KHR_xmp_json_ld":{"packets":[{"@context":{"dc":"http://purl.org/dc/elements/1.1/"},"dc:Creator":["Alice"]}]}}"#
    ));
    let again = read(&encode(&doc).unwrap());
    assert_eq!(again.root.extensions, doc.root.extensions);
    assert_eq!(again.root.nodes, read(&sample()).root.nodes);
}

#[test]
fn add_xmp_metadata_replaces_an_earlier_packet() {
    let first = add_xmp_metadata(&sample(), &vec![member("dc:title", text("One"))]).unwrap();
    let second = add_xmp_metadata(&first, &vec![member("dc:title", text("Two"))]).unwrap();
    let doc = read(&second);
    assert_eq!(doc.root.extensions.len(), 1);
    assert_eq!(doc.root.extensions_used.len(), 1);
    let want = parse(
        &br#"{"packets":[{"@context":{"dc":"http://purl.org/dc/elements/1.1/"},"dc:title":"Two"}]}"#.to_vec(),
    )
    .unwrap();
    assert_eq!(doc.root.extensions[0].value, want);
}

#[test]
fn add_xmp_metadata_refuses_what_a_packet_cannot_hold() {
    let invalid = PipelineError { stage: Stage::Transform(0), error: Error::InvalidMetadata };
    for value in [
        Json::Number(b"1".to_vec()),
        Json::Bool(true),
        Json::Null,
        Json::Object(vec![]),
        Json::Array(vec![text("a"), Json::Number(b"1".to_vec())]),
    ] {
        assert_eq!(add_xmp_metadata(&sample(), &vec![member("dc:Creator", value)]), Err(invalid_copy(&invalid)));
    }
    for name in ["Creator", "xmp:Rating", ""] {
        assert_eq!(add_xmp_metadata(&sample(), &vec![member(name, text("x"))]), Err(invalid_copy(&invalid)));
    }
}

fn invalid_copy(e: &PipelineError) -> PipelineError {
    PipelineError { stage: e.stage, error: Error::InvalidMetadata }
}

#[test]
fn inject_metadata_needs_the_extension_registered() {
    let mut doc = read(&sample());
    let before = read(&sample());
    let context = vec![member("dc", text("http://purl.org/dc/elements/1.1/"))];
    let props = vec![member("dc:title", text("x"))];
    assert_eq!(
        inject_metadata(&mut doc, &Registry::new(), &context, &props),
        Err(Error::UnsupportedExtension(b"KHR_xmp_json_ld".to_vec()))
    );
    assert_eq!(doc, before);
    let bad_context = vec![member("dc", Json::Null)];
    assert_eq!(
        inject_metadata(&mut doc, &Registry::standard(), &bad_context, &props),
        Err(Error::InvalidMetadata)
    );
    assert_eq!(doc, before);
}

#[test]
fn pipeline_stops_at_the_first_failure() {
    let steps = vec![
        Transform::Prune,
        Transform::MetadataInject {
            context: vec![member("dc", text("http://purl.org/dc/elements/1.1/"))],
            properties: vec![member("dc:Creator", Json::Number(b"7".to_vec()))],
        },
        Transform::Dedup,
    ];
    let failure = PipelineError { stage: Stage::Transform(1), error: Error::InvalidMetadata };
    assert_eq!(process(&glb(TWINS, None), &Registry::standard(), &steps), Err(failure));
    let mut doc = read(&glb(TWINS, None));
    let result = run(&mut doc, &Registry::standard(), &steps);
    assert_eq!(result, Err(PipelineError { stage: Stage::Transform(1), error: Error::InvalidMetadata }));
    assert_eq!(doc.root.materials.len(), 3);
}

#[test]
fn pipeline_without_transforms_is_the_codec() {
    let out = process(&sample(), &Registry::standard(), &vec![]).unwrap();
    assert_eq!(out, encode(&read(&sample())).unwrap());
}

#[test]
fn truncated_input_is_a_malformed_asset() {
    let mut cut = sample();
    cut.truncate(60);
    assert_eq!(optimize_gltf(&cut), Err(malformed(Malformed::Truncated)));
    assert_eq!(add_xmp_metadata(&cut, &vec![]), Err(malformed(Malformed::Truncated)));
    assert_eq!(optimize_gltf(&b"glTF".to_vec()), Err(malformed(Malformed::Truncated)));
    assert_eq!(optimize_gltf(&vec![0u8; 64]), Err(malformed(Malformed::BadMagic)));
}

#[test]
fn cut_json_text_is_a_malformed_asset() {
    let cut = &SCENE[..SCENE.len() / 2];
    assert_eq!(optimize_gltf(&glb(cut, None)), Err(malformed(Malformed::BadJson)));
}

const PAINTED: &str = r#"{"asset":{"version":"2.0"},
  "materials":[{"pbrMetallicRoughness":{"baseColorTexture":{"index":0}},"normalTexture":{"index":1},"emissiveTexture":{"index":2}},
               {"occlusionTexture":{"index":3}}],
  "textures":[{"source":0},{"source":1},{"source":2},{"source":1},{"source":4}],
  "images":[{"bufferView":0,"mimeType":"image/png"},{"bufferView":1,"mimeType":"image/png"},
            {"uri":"far.png"},{"bufferView":1},{"bufferView":2,"mimeType":"image/jpeg"}],
  "bufferViews":[{"buffer":0,"byteLength":5},{"buffer":0,"byteOffset":8,"byteLength":3},{"buffer":0,"byteOffset":12,"byteLength":2}],
  "buffers":[{"byteLength":14}]}"#;

fn painted() -> Vec<u8> {
    glb(PAINTED, Some(vec![1, 2, 3, 4, 5, 0, 0, 0, 6, 7, 8, 0, 9, 10]))
}

#[test]
fn optimize_textures_asks_for_the_images_that_are_not_left_alone() {
    let mut session = glb_pipeline::optimize_textures(&painted()).unwrap();
    assert_eq!(session.pending, vec![0, 4]);
    assert_eq!(session.config.format, glb_pipeline::textures::Format::Webp);
    assert_eq!(session.config.quality, 70);
    assert_eq!((session.config.max_width, session.config.max_height), (512, 512));
    assert!(session.config.exclude.normal);
    let job = session.request().unwrap();
    assert_eq!(job.image, 0);
    assert_eq!(job.bytes, vec![1, 2, 3, 4, 5]);
    assert_eq!(job.mime, Some(b"image/png".to_vec()));
    assert_eq!(job.config, session.config);
    assert_eq!(
        session.finish(),
        Err(PipelineError { stage: Stage::Transform(0), error: Error::Unfinished })
    );
    assert_eq!(session.supply(Ok(vec![42, 43])), Ok(()));
    let job = session.request().unwrap();
    assert_eq!(job.image, 4);
    assert_eq!(job.bytes, vec![9, 10]);
    assert_eq!(session.supply(Ok(vec![44])), Ok(()));
    assert_eq!(session.request(), None);
    let out = session.finish().unwrap();
    let before = read(&painted());
    let after = read(&out);
    assert_eq!(after.root.textures, before.root.textures);
    assert_eq!(after.root.materials, before.root.materials);
    assert_eq!(after.root.images.len(), 5);
    assert_eq!(after.root.images[1], before.root.images[1]);
    assert_eq!(after.root.images[2], before.root.images[2]);
    assert_eq!(after.root.images[3], before.root.images[3]);
    assert_eq!(after.root.images[0].view, Some(3));
    assert_eq!(after.root.images[0].mime, Some(b"image/webp".to_vec()));
    assert_eq!(after.root.images[4].view, Some(4));
    assert_eq!(after.root.views[3].offset, 16);
    assert_eq!(after.root.views[3].length, 2);
    assert_eq!(after.root.views[4].offset, 20);
    assert_eq!(after.root.views[4].length, 1);
    assert_eq!(after.root.buffers[0].length, 21);
    assert_eq!(
        after.data[0],
        vec![1, 2, 3, 4, 5, 0, 0, 0, 6, 7, 8, 0, 9, 10, 0, 0, 42, 43, 0, 0, 44]
    );
    assert_eq!(&after.data[0][8..11], &[6, 7, 8]);
    assert!(after.root.check());
}

#[test]
fn a_failure_of_the_codec_fails_the_session() {
    let mut session = glb_pipeline::optimize_textures(&painted()).unwrap();
    let failure = PipelineError { stage: Stage::Transform(0), error: Error::Codec(b"no encoder".to_vec()) };
    assert_eq!(session.supply(Err(b"no encoder".to_vec())), Err(failure));
    assert_eq!(session.request(), None);
    let unfinished = || PipelineError { stage: Stage::Transform(0), error: Error::Unfinished };
    assert_eq!(session.finish(), Err(unfinished()));
    assert_eq!(session.supply(Ok(vec![1])), Err(unfinished()));
}

#[test]
fn an_answer_that_was_not_asked_for_fails_the_session() {
    let mut session = glb_pipeline::optimize_textures(&sample()).unwrap();
    assert_eq!(session.pending, vec![0]);
    assert_eq!(session.supply(Ok(vec![1])), Ok(()));
    assert_eq!(
        session.supply(Ok(vec![2])),
        Err(PipelineError { stage: Stage::Transform(0), error: Error::Unfinished })
    );
}

#[test]
fn a_session_without_images_finishes_at_once() {
    let session = glb_pipeline::optimize_textures(&glb(TWINS, None)).unwrap();
    assert_eq!(session.request(), None);
    assert_eq!(session.finish().unwrap(), encode(&read(&glb(TWINS, None))).unwrap());
}

#[test]
fn optimize_textures_fails_on_truncated_input() {
    let mut cut = painted();
    cut.truncate(40);
    assert_eq!(glb_pipeline::optimize_textures(&cut).err(), Some(malformed(Malformed::Truncated)));
}

#[test]
fn replace_image_makes_a_buffer_where_there_is_none() {
    let json = r#"{"asset":{"version":"2.0"},"images":[{"uri":"a.png"}]}"#;
    let mut doc = read(&glb(json, None));
    assert_eq!(
        glb_pipeline::images::replace_image(&mut doc, 0, &vec![7, 8, 9], &b"image/png".to_vec()),
        Ok(())
    );
    assert_eq!(doc.data, vec![vec![7, 8, 9]]);
    assert_eq!(doc.root.buffers[0].length, 3);
    assert_eq!(doc.root.images[0].uri, None);
    assert_eq!(doc.root.images[0].view, Some(0));
    assert_eq!(doc.root.views[0].offset, 0);
    assert_eq!(read(&encode(&doc).unwrap()), doc);
}
