use glb_pipeline::codec::{decode, encode};
use glb_pipeline::container::join;
use glb_pipeline::document::Document;
use glb_pipeline::error::Error;
use glb_pipeline::pipeline::{PipelineError, Stage};
use glb_pipeline::registry::Registry;
use glb_pipeline::reorder::{ReorderSession, ViewJob};
use glb_pipeline::textures::{CompressConfig, Format, Slots, TextureSession};

const MESH: &str = r#"{"asset":{"version":"2.0"},
  "meshes":[{"primitives":[{"attributes":{"POSITION":0},"indices":1}]}],
  "images":[{"bufferView":2}],
  "accessors":[{"bufferView":0,"componentType":5121,"count":1,"type":"SCALAR"},
               {"bufferView":1,"componentType":5121,"count":3,"type":"SCALAR"}],
  "bufferViews":[{"buffer":0,"byteLength":4,"byteStride":4},{"buffer":0,"byteOffset":4,"byteLength":3},
                 {"buffer":0,"byteOffset":8,"byteLength":2},{"buffer":0,"byteOffset":10,"byteLength":2}],
  "buffers":[{"byteLength":12}]}"#;

fn document() -> Document {
    let bytes = join(&MESH.as_bytes().to_vec(), &Some((1u8..13).collect())).unwrap();
    decode(&bytes, &Registry::standard()).unwrap().document
}

fn unfinished() -> PipelineError {
    PipelineError { stage: Stage::Transform(0), error: Error::Unfinished }
}

#[test]
fn reorder_asks_for_the_views_that_accessors_read() {
    let mut session = ReorderSession::start(document());
    assert_eq!(session.pending, vec![0, 1]);
    assert_eq!(session.request(), Some(ViewJob { view: 0, bytes: vec![1, 2, 3, 4], stride: Some(4) }));
    assert_eq!(session.supply(Ok(vec![4, 3, 2, 1])), Ok(()));
    assert_eq!(session.request(), Some(ViewJob { view: 1, bytes: vec![5, 6, 7], stride: None }));
    assert_eq!(session.supply(Ok(vec![7, 5, 6])), Ok(()));
    assert_eq!(session.request(), None);
    let doc = session.finish().unwrap();
    assert_eq!(doc.root, document().root);
    assert_eq!(doc.data, vec![vec![4, 3, 2, 1, 7, 5, 6, 8, 9, 10, 11, 12]]);
    assert!(doc.validate());
    let bytes = encode(&doc).unwrap();
    assert_eq!(decode(&bytes, &Registry::standard()).unwrap().document, doc);
}

#[test]
fn reorder_refuses_an_answer_of_another_length() {
    let mut session = ReorderSession::start(document());
    assert_eq!(
        session.supply(Ok(vec![1, 2, 3])),
        Err(PipelineError { stage: Stage::Transform(0), error: Error::Codec(vec![]) })
    );
    assert_eq!(session.document, document());
    assert_eq!(session.request(), None);
    assert_eq!(session.supply(Ok(vec![1, 2, 3, 4])), Err(unfinished()));
    assert_eq!(session.finish(), Err(unfinished()));
}

#[test]
fn reorder_relays_the_failure_of_the_codec() {
    let mut session = ReorderSession::start(document());
    assert_eq!(
        session.supply(Err(b"out of memory".to_vec())),
        Err(PipelineError { stage: Stage::Transform(0), error: Error::Codec(b"out of memory".to_vec()) })
    );
    assert_eq!(session.finish(), Err(unfinished()));
}

#[test]
fn reorder_gives_nothing_before_every_view_is_done() {
    let mut session = ReorderSession::start(document());
    assert_eq!(session.supply(Ok(vec![0, 0, 0, 0])), Ok(()));
    assert_eq!(session.finish(), Err(unfinished()));
}

#[test]
fn sessions_can_follow_one_another() {
    let config = CompressConfig {
        format: Format::Png,
        quality: 90,
        max_width: 64,
        max_height: 64,
        exclude: Slots { base_color: false, metallic_roughness: false, normal: false, occlusion: false, emissive: false },
    };
    let mut reorder = ReorderSession::start(document());
    assert_eq!(reorder.supply(Ok(vec![9, 9, 9, 9])), Ok(()));
    assert_eq!(reorder.supply(Ok(vec![8, 8, 8])), Ok(()));
    let textures = TextureSession::start(reorder.finish().unwrap(), config);
    assert_eq!(textures.pending, Vec::<usize>::new());
    let doc = textures.into_document().unwrap();
    assert_eq!(doc.data, vec![vec![9, 9, 9, 9, 8, 8, 8, 8, 9, 10, 11, 12]]);
}
