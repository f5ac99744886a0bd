use glb_pipeline::codec::{decode, encode};
use glb_pipeline::container::join;
use glb_pipeline::document::Document;
use glb_pipeline::entities::{Attribute, Mesh, Node, Primitive};
use glb_pipeline::error::{Error, Malformed};
use glb_pipeline::graph::{
    add_mesh, add_node, attach_extension, attach_material_extension, attach_node_extension,
    attach_texture_extension, remove_mesh, remove_node,
};
use glb_pipeline::json::{Json, Member};
use glb_pipeline::registry::{Capability, Registry};

const SCENE: &str = r#"{"asset":{"version":"2.0"},"scenes":[{"nodes":[0,0]}],
  "nodes":[{"children":[1,2]},{"mesh":1},{"mesh":1},{"mesh":0}],
  "meshes":[{"primitives":[{"attributes":{"POSITION":0},"material":0}]},{"name":"shared"}],
  "materials":[{"name":"m"}],"textures":[{"source":0}],"images":[{"uri":"a.png"}],
  "accessors":[{"componentType":5126,"count":1,"type":"VEC3"}]}"#;

fn document() -> Document {
    let bytes = join(&SCENE.as_bytes().to_vec(), &None).unwrap();
    decode(&bytes, &Registry::standard()).unwrap().document
}

fn member(k: &str, v: Json) -> Member {
    Member { key: k.as_bytes().to_vec(), value: v }
}

fn node(children: Vec<usize>, mesh: Option<usize>) -> Node {
    Node { children, mesh, extensions: vec![], props: vec![] }
}

#[test]
fn documents_that_are_read_are_well_formed() {
    let mut doc = document();
    assert!(doc.validate());
    doc.root.nodes[1].mesh = Some(9);
    assert!(!doc.validate());
    let mut doc = document();
    doc.root.nodes[0].props.push(member("camera", Json::Null));
    assert!(!doc.validate());
    let mut doc = document();
    doc.data.push(vec![1]);
    assert!(!doc.validate());
}

#[test]
fn references_are_counted() {
    let doc = document();
    assert_eq!(doc.root.node_references(0), 2);
    assert_eq!(doc.root.node_references(1), 1);
    assert_eq!(doc.root.node_references(3), 0);
    assert_eq!(doc.root.node_references(7), 0);
    assert_eq!(doc.root.mesh_references(0), 1);
    assert_eq!(doc.root.mesh_references(1), 2);
    assert_eq!(doc.root.mesh_references(2), 0);
    assert_eq!(doc.root.mark_nodes(), vec![true, true, true, false]);
    assert_eq!(doc.root.mark_meshes(), vec![true, true]);
    assert_eq!(doc.root.mark_materials(), vec![true]);
    assert_eq!(doc.root.mark_textures(), vec![false]);
    assert_eq!(doc.root.mark_accessors(), vec![true]);
}

#[test]
fn a_node_is_added_behind_the_others() {
    let mut doc = document();
    let n = Node { children: vec![3], mesh: Some(0), extensions: vec![], props: vec![member("name", Json::Null)] };
    assert_eq!(add_node(&mut doc, n), Ok(4));
    assert_eq!(doc.root.nodes.len(), 5);
    assert_eq!(doc.root.nodes[4].children, vec![3]);
    assert_eq!(doc.root.node_references(3), 1);
    assert!(doc.validate());
}

#[test]
fn a_node_that_refers_to_nothing_is_not_added() {
    let mut doc = document();
    let before = document();
    assert_eq!(add_node(&mut doc, node(vec![4], None)), Err(Error::DanglingReference));
    assert_eq!(add_node(&mut doc, node(vec![], Some(2))), Err(Error::DanglingReference));
    let mut odd = node(vec![], None);
    odd.props.push(member("skin", Json::Null));
    assert_eq!(add_node(&mut doc, odd), Err(Error::MalformedAsset(Malformed::BadSchema)));
    let mut bad_number = node(vec![], None);
    bad_number.props.push(member("name", Json::Number(b"01".to_vec())));
    assert_eq!(add_node(&mut doc, bad_number), Err(Error::MalformedAsset(Malformed::BadSchema)));
    assert_eq!(doc, before);
}

#[test]
fn a_node_that_is_referred_to_is_not_removed() {
    let mut doc = document();
    let before = document();
    assert_eq!(remove_node(&mut doc, 1), Err(Error::DanglingReference));
    assert_eq!(remove_node(&mut doc, 0), Err(Error::DanglingReference));
    assert_eq!(remove_node(&mut doc, 4), Err(Error::DanglingReference));
    assert_eq!(doc, before);
}

#[test]
fn removing_a_node_renumbers_the_later_ones() {
    let mut doc = document();
    assert_eq!(add_node(&mut doc, node(vec![3], None)), Ok(4));
    assert_eq!(add_node(&mut doc, node(vec![1, 4], None)), Ok(5));
    doc.root.scenes[0].nodes = vec![5];
    assert!(doc.validate());
    assert_eq!(remove_node(&mut doc, 0), Ok(()));
    assert_eq!(doc.root.nodes.len(), 5);
    assert_eq!(doc.root.scenes[0].nodes, vec![4]);
    assert_eq!(doc.root.nodes[4].children, vec![0, 3]);
    assert_eq!(doc.root.nodes[3].children, vec![2]);
    assert_eq!(doc.root.nodes[2].mesh, Some(0));
    assert!(doc.validate());
}

#[test]
fn meshes_are_added_and_removed() {
    let mut doc = document();
    let before = document();
    let mesh = Mesh {
        primitives: vec![Primitive {
            attributes: vec![Attribute { name: b"POSITION".to_vec(), accessor: 0 }],
            indices: None,
            material: Some(0),
            props: vec![],
        }],
        props: vec![],
    };
    assert_eq!(add_mesh(&mut doc, mesh), Ok(2));
    let dangling = Mesh {
        primitives: vec![Primitive { attributes: vec![], indices: Some(1), material: None, props: vec![] }],
        props: vec![],
    };
    assert_eq!(add_mesh(&mut doc, dangling), Err(Error::DanglingReference));
    assert_eq!(remove_mesh(&mut doc, 1), Err(Error::DanglingReference));
    assert_eq!(remove_mesh(&mut doc, 3), Err(Error::DanglingReference));
    assert_eq!(remove_mesh(&mut doc, 2), Ok(()));
    assert_eq!(doc, before);
    doc.root.nodes[3].mesh = None;
    assert_eq!(remove_mesh(&mut doc, 0), Ok(()));
    assert_eq!(doc.root.meshes.len(), 1);
    assert_eq!(doc.root.nodes[1].mesh, Some(0));
    assert_eq!(doc.root.nodes[2].mesh, Some(0));
    assert!(doc.validate());
}

#[test]
fn payloads_are_attached_at_the_root_and_at_entities() {
    let mut doc = document();
    let mut reg = Registry::standard();
    reg.register(b"X_tag", Capability::Passthrough).unwrap();
    let name = b"X_tag".to_vec();
    let one = Json::Object(vec![member("v", Json::Number(b"1".to_vec()))]);
    let two = Json::Object(vec![member("v", Json::Number(b"2".to_vec()))]);
    assert_eq!(attach_extension(&mut doc, &reg, &name, &one), Ok(()));
    assert_eq!(attach_extension(&mut doc, &reg, &name, &two), Ok(()));
    assert_eq!(doc.root.extensions, vec![member("X_tag", Json::Object(vec![member("v", Json::Number(b"2".to_vec()))]))]);
    assert_eq!(doc.root.extensions_used, vec![name.clone()]);
    assert_eq!(attach_node_extension(&mut doc, &reg, 2, &name, &one), Ok(()));
    assert_eq!(attach_material_extension(&mut doc, &reg, 0, &name, &one), Ok(()));
    assert_eq!(attach_texture_extension(&mut doc, &reg, 0, &name, &one), Ok(()));
    assert_eq!(doc.root.nodes[2].extensions.len(), 1);
    assert_eq!(doc.root.materials[0].extensions.len(), 1);
    assert_eq!(doc.root.textures[0].extensions.len(), 1);
    assert_eq!(doc.root.extensions_used.len(), 1);
    assert!(doc.validate());
    let bytes = encode(&doc).unwrap();
    assert_eq!(decode(&bytes, &reg).unwrap().document, doc);
}

#[test]
fn payloads_are_refused_with_the_document_left_alone() {
    let mut doc = document();
    let before = document();
    let reg = Registry::standard();
    let payload = Json::Object(vec![]);
    assert_eq!(
        attach_extension(&mut doc, &reg, &b"X_none".to_vec(), &payload),
        Err(Error::UnsupportedExtension(b"X_none".to_vec()))
    );
    assert_eq!(
        attach_extension(&mut doc, &reg, &b"KHR_xmp_json_ld".to_vec(), &Json::Null),
        Err(Error::MalformedAsset(Malformed::BadSchema))
    );
    assert_eq!(
        attach_node_extension(&mut doc, &reg, 9, &b"KHR_materials_unlit".to_vec(), &payload),
        Err(Error::DanglingReference)
    );
    let mut deep = Json::Null;
    for _ in 0..65 {
        deep = Json::Array(vec![deep]);
    }
    assert_eq!(
        attach_extension(&mut doc, &reg, &b"KHR_materials_unlit".to_vec(), &deep),
        Err(Error::MalformedAsset(Malformed::BadSchema))
    );
    assert_eq!(doc, before);
}

fn read(json: &str) -> Result<Document, Error> {
    let bytes = join(&json.as_bytes().to_vec(), &None).unwrap();
    decode(&bytes, &Registry::standard()).map(|d| d.document)
}

#[test]
fn a_node_graph_with_a_cycle_is_refused() {
    let cyclic = [
        r#"{"asset":{"version":"2.0"},"nodes":[{"children":[0]}]}"#,
        r#"{"asset":{"version":"2.0"},"nodes":[{"children":[1]},{"children":[0]}]}"#,
        r#"{"asset":{"version":"2.0"},"nodes":[{},{"children":[2,0]},{"children":[3]},{"children":[1]}]}"#,
    ];
    for json in cyclic {
        assert_eq!(read(json).err(), Some(Error::MalformedAsset(Malformed::BadSchema)), "{}", json);
    }
}

#[test]
fn a_node_graph_without_a_cycle_is_read() {
    let fine = [
        r#"{"asset":{"version":"2.0"},"nodes":[]}"#,
        r#"{"asset":{"version":"2.0"},"nodes":[{"children":[1,2]},{"children":[2]},{}]}"#,
        r#"{"asset":{"version":"2.0"},"nodes":[{},{"children":[0]},{"children":[1]},{"children":[2]}]}"#,
        r#"{"asset":{"version":"2.0"},"nodes":[{"children":[3]},{"children":[0]},{"children":[1]},{}]}"#,
    ];
    for json in fine {
        let doc = read(json).unwrap();
        assert!(doc.root.check_acyclic(), "{}", json);
    }
}

#[test]
fn a_node_cannot_be_made_its_own_descendant() {
    let mut doc = document();
    doc.root.nodes[2].children = vec![0];
    assert!(!doc.root.check_acyclic());
    assert!(!doc.validate());
}

#[test]
fn references_to_textures_are_counted_by_slot() {
    let json = r#"{"asset":{"version":"2.0"},
      "materials":[{"pbrMetallicRoughness":{"baseColorTexture":{"index":0},"metallicRoughnessTexture":{"index":0}},
                    "normalTexture":{"index":1},"emissiveTexture":{"index":0}},
                   {"occlusionTexture":{"index":1}}],
      "textures":[{},{},{}]}"#;
    let doc = read(json).unwrap();
    assert_eq!(doc.root.texture_references(0), 3);
    assert_eq!(doc.root.texture_references(1), 2);
    assert_eq!(doc.root.texture_references(2), 0);
    assert_eq!(doc.root.mark_textures(), vec![true, true, false]);
}

#[test]
fn a_node_has_at_most_the_parent_that_lists_it_first() {
    let doc = document();
    assert_eq!(doc.root.parent(0), None);
    assert_eq!(doc.root.parent(1), Some(0));
    assert_eq!(doc.root.parent(2), Some(0));
    assert_eq!(doc.root.parent(3), None);
    assert_eq!(doc.root.parent(9), None);
}
