//! The binary codec: between the bytes of a GLB container and a document.
use vstd::prelude::*;
use crate::bytes::copy_range;
use crate::container::{
    fits, join, join_spec, lemma_split_join, pad_len, padded, payload_view, split, split_spec, ChunksView,
};
use crate::document::{Document, DocumentView};
use crate::entities::{RootView, PROPS_DEPTH};
use crate::error::{Error, ErrorView, Malformed};
use crate::json::{members_view, Member, MemberView};
use crate::registry::{accepts, capability_of, EntryView, Registry};
use crate::bytes::clone_bytes;
use crate::fields::texts_view;
use crate::json::laws::lemma_parse_text;
use crate::json::lex::is_space;
use crate::json::parse::{parse, parse_document};
use crate::json::text::{text_of, write_json};
use crate::json::{lemma_object_view, lemma_well_formed_deeper, Json, JsonView, MAX_DEPTH};
use crate::schema::{lemma_root_of_ok, lemma_root_round_trip, read_root, root_members, root_of, write_root};

verus! {

/// The document that a JSON value and a binary payload denote. The value
/// must be the object of a valid scene description; where that has a
/// buffer, the payload must hold the buffer's bytes and at most three
/// bytes of padding.
pub open spec fn document_of(json: JsonView, bin: Option<Seq<u8>>) -> Result<DocumentView, Malformed> {
    match json {
        JsonView::Object(ms) => match root_of(ms) {
            None => Err(Malformed::BadSchema),
            Some(root) => if !root.valid() {
                Err(Malformed::BadSchema)
            } else if root.buffers.len() == 0 {
                Ok(DocumentView { root, data: Seq::empty() })
            } else {
                match bin {
                    None => Err(Malformed::BadBinary),
                    Some(b) => {
                        let n = root.buffers[0].length;
                        if n > b.len() || b.len() - n > 3 {
                            Err(Malformed::BadBinary)
                        } else {
                            Ok(DocumentView { root, data: seq![b.subrange(0, n as int)] })
                        }
                    },
                }
            },
        },
        _ => Err(Malformed::BadSchema),
    }
}

/// The document that the bytes of a container denote, or why they denote
/// none.
pub open spec fn decode_spec(bytes: Seq<u8>) -> Result<DocumentView, Malformed> {
    match split_spec(bytes) {
        Err(e) => Err(e),
        Ok(chunks) => match parse_document(chunks.json) {
            None => Err(Malformed::BadJson),
            Some(json) => document_of(json, chunks.bin),
        },
    }
}

/// The JSON value of the description of a document.
pub open spec fn json_of(doc: DocumentView) -> JsonView {
    JsonView::Object(root_members(doc.root))
}

/// The binary payload of a document: the bytes of its buffer, if it has
/// one.
pub open spec fn payload_of(doc: DocumentView) -> Option<Seq<u8>> {
    if doc.data.len() == 0 {
        None
    } else {
        Some(doc.data[0])
    }
}

/// The container that holds a document, unless it would be longer than a
/// container can be.
pub open spec fn encode_spec(doc: DocumentView) -> Option<Seq<u8>> {
    if fits(text_of(json_of(doc)), payload_of(doc)) {
        Some(join_spec(text_of(json_of(doc)), payload_of(doc)))
    } else {
        None
    }
}

/// Reads a document from the bytes of a container.
pub fn read_document(bytes: &Vec<u8>) -> (r: Result<Document, Malformed>)
    ensures
        match r {
            Ok(doc) => decode_spec(bytes@) == Ok::<DocumentView, Malformed>(doc@) && doc@.wf(),
            Err(e) => decode_spec(bytes@) == Err::<DocumentView, Malformed>(e),
        },
{
    let chunks = match split(bytes) {
        Ok(c) => c,
        Err(e) => {
            return Err(e);
        },
    };
    let json = match parse(&chunks.json) {
        Some(v) => v,
        None => {
            return Err(Malformed::BadJson);
        },
    };
    let root = match &json {
        Json::Object(ms) => {
            proof {
                lemma_object_view(*ms);
            }
            match read_root(ms) {
                Some(root) => root,
                None => {
                    return Err(Malformed::BadSchema);
                },
            }
        },
        _ => {
            return Err(Malformed::BadSchema);
        },
    };
    if !root.check() {
        return Err(Malformed::BadSchema);
    }
    proof {
        reveal(RootView::valid);
    }
    if root.buffers.len() == 0 {
        let data: Vec<Vec<u8>> = Vec::new();
        assert(texts_view(data@) =~= Seq::<Seq<u8>>::empty());
        return Ok(Document { root, data });
    }
    assert(root@.buffers[0] == root.buffers@[0]@);
    let n = root.buffers[0].length;
    match &chunks.bin {
        None => Err(Malformed::BadBinary),
        Some(b) => {
            if n > b.len() || b.len() - n > 3 {
                return Err(Malformed::BadBinary);
            }
            let mut data: Vec<Vec<u8>> = Vec::new();
            data.push(copy_range(b, 0, n));
            assert(texts_view(data@) =~= seq![b@.subrange(0, n as int)]);
            Ok(Document { root, data })
        },
    }
}

/// Writes a document as the bytes of a container. It fails exactly when
/// the container would be longer than a container can be.
pub fn write_document(doc: &Document) -> (r: Result<Vec<u8>, Error>)
    ensures
        match r {
            Ok(bytes) => encode_spec(doc@) == Some(bytes@),
            Err(e) => encode_spec(doc@) is None && e == Error::EncodingOverflow,
        },
{
    let members = write_root(&doc.root);
    proof {
        lemma_object_view(members);
    }
    let json = Json::Object(members);
    let mut text: Vec<u8> = Vec::new();
    write_json(&mut text, &json);
    assert(text@ =~= text_of(json_of(doc@)));
    if doc.data.len() == 0 {
        join(&text, &None)
    } else {
        assert(texts_view(doc.data@)[0] == doc.data@[0]@);
        let bin = Some(copy_range(&doc.data[0], 0, doc.data[0].len()));
        assert(payload_view(bin) =~= payload_of(doc@)) by {
            assert(bin->Some_0@ =~= doc.data@[0]@);
        }
        join(&text, &bin)
    }
}

/// The text of the description of a well-formed document, padded as it is
/// in a container, denotes the description.
proof fn lemma_text_round_trip(doc: DocumentView)
    requires
        doc.root.ok(),
    ensures
        parse_document(padded(text_of(json_of(doc)), 0x20)) == Some(json_of(doc)),
        root_of(root_members(doc.root)) == Some(doc.root),
{
    let json = json_of(doc);
    let text = text_of(json);
    lemma_root_round_trip(doc.root);
    lemma_well_formed_deeper(json, (PROPS_DEPTH + 5) as nat, MAX_DEPTH as nat);
    let tail = Seq::new(pad_len(text.len()), |i: int| 0x20u8);
    lemma_parse_text(json, tail);
    assert(padded(text, 0x20) == text + tail);
}

/// The bytes of the buffer of a well-formed document are read back from
/// their padded form.
proof fn lemma_payload_round_trip(doc: DocumentView)
    requires
        doc.wf(),
        root_of(root_members(doc.root)) == Some(doc.root),
    ensures
        document_of(
            json_of(doc),
            match payload_of(doc) {
                Some(b) => Some(padded(b, 0)),
                None => None,
            },
        ) == Ok::<DocumentView, Malformed>(doc),
{
    reveal(RootView::valid);
    if doc.data.len() > 0 {
        let b = padded(doc.data[0], 0);
        let n = doc.root.buffers[0].length;
        assert(b.subrange(0, n as int) =~= doc.data[0]);
        assert(doc.data =~= seq![doc.data[0]]);
    } else {
        assert(doc.data =~= Seq::<Seq<u8>>::empty());
    }
}

/// Reading what was written gives back the document: a well-formed
/// document whose container is not too long is the document that its
/// container denotes.
pub proof fn lemma_decode_encode(doc: DocumentView)
    requires
        doc.wf(),
        encode_spec(doc) is Some,
    ensures
        decode_spec(encode_spec(doc).unwrap()) == Ok::<DocumentView, Malformed>(doc),
{
    lemma_split_join(text_of(json_of(doc)), payload_of(doc));
    lemma_text_round_trip(doc);
    lemma_payload_round_trip(doc);
}

/// A document that was read, and the names of the extensions it uses that
/// the registry does not know. The payloads of those are carried as they
/// are.
#[derive(Debug, PartialEq, Eq)]
pub struct Decoded {
    pub document: Document,
    pub skipped: Vec<Vec<u8>>,
}

/// The mathematical value of a [`Decoded`].
pub struct DecodedView {
    pub document: DocumentView,
    pub skipped: Seq<Seq<u8>>,
}

impl View for Decoded {
    type V = DecodedView;

    open spec fn view(&self) -> DecodedView {
        DecodedView { document: self.document@, skipped: texts_view(self.skipped@) }
    }
}

/// The first of the first `n` required extensions that the registry does
/// not know.
pub open spec fn unsupported(required: Seq<Seq<u8>>, registry: Seq<EntryView>, n: int) -> Option<Seq<u8>>
    decreases n,
{
    if n <= 0 || n > required.len() {
        None
    } else {
        match unsupported(required, registry, n - 1) {
            Some(name) => Some(name),
            None => if capability_of(registry, required[n - 1]) is None {
                Some(required[n - 1])
            } else {
                None
            },
        }
    }
}

/// Those of the first `n` extensions in use that the registry does not
/// know, in their order.
pub open spec fn unknown(used: Seq<Seq<u8>>, registry: Seq<EntryView>, n: int) -> Seq<Seq<u8>>
    decreases n,
{
    if n <= 0 || n > used.len() {
        Seq::empty()
    } else if capability_of(registry, used[n - 1]) is None {
        unknown(used, registry, n - 1).push(used[n - 1])
    } else {
        unknown(used, registry, n - 1)
    }
}

/// Whether the payload is one that the capability registered for its name
/// accepts, if one is registered.
pub open spec fn payload_accepted(m: MemberView, registry: Seq<EntryView>) -> bool {
    match capability_of(registry, m.key) {
        Some(c) => accepts(c, m.value),
        None => true,
    }
}

/// Whether every payload is accepted.
pub open spec fn payloads_accepted(payloads: Seq<MemberView>, registry: Seq<EntryView>) -> bool {
    forall|i: int| 0 <= i < payloads.len() ==> payload_accepted(#[trigger] payloads[i], registry)
}

/// What reading a document amounts to under a registry: it fails where a
/// required extension is unknown, and where a known extension does not
/// accept its payload at the root; else the document stands, and the
/// unknown extensions in use are named.
pub open spec fn admit_spec(doc: DocumentView, registry: Seq<EntryView>) -> Result<DecodedView, ErrorView> {
    let required = doc.root.extensions_required;
    match unsupported(required, registry, required.len() as int) {
        Some(name) => Err(ErrorView::UnsupportedExtension(name)),
        None => if !payloads_accepted(doc.root.extensions, registry) {
            Err(ErrorView::MalformedAsset(Malformed::BadSchema))
        } else {
            Ok(
                DecodedView {
                    document: doc,
                    skipped: unknown(
                        doc.root.extensions_used,
                        registry,
                        doc.root.extensions_used.len() as int,
                    ),
                },
            )
        },
    }
}

/// What the bytes of a container denote under a registry.
pub open spec fn decode_with(bytes: Seq<u8>, registry: Seq<EntryView>) -> Result<DecodedView, ErrorView> {
    match decode_spec(bytes) {
        Err(m) => Err(ErrorView::MalformedAsset(m)),
        Ok(doc) => admit_spec(doc, registry),
    }
}

/// Finds the first required extension that the registry does not know.
fn find_unsupported(required: &Vec<Vec<u8>>, registry: &Registry) -> (r: Option<Vec<u8>>)
    ensures
        match r {
            Some(name) => unsupported(texts_view(required@), registry@, required.len() as int) == Some(
                name@,
            ),
            None => unsupported(texts_view(required@), registry@, required.len() as int) is None,
        },
{
    let ghost names = texts_view(required@);
    let mut i: usize = 0;
    while i < required.len()
        invariant
            i <= required.len(),
            names == texts_view(required@),
            unsupported(names, registry@, i as int) is None,
        decreases required.len() - i,
    {
        assert(names[i as int] == required@[i as int]@);
        if registry.lookup(&required[i]).is_none() {
            proof {
                lemma_unsupported_grows(names, registry@, i + 1, names.len() as int);
            }
            return Some(clone_bytes(&required[i]));
        }
        i += 1;
    }
    None
}

/// What is unsupported among the first names stays the answer among more.
proof fn lemma_unsupported_grows(required: Seq<Seq<u8>>, registry: Seq<EntryView>, n: int, m: int)
    requires
        0 <= n <= m <= required.len(),
        unsupported(required, registry, n) is Some,
    ensures
        unsupported(required, registry, m) == unsupported(required, registry, n),
    decreases m - n,
{
    if n < m {
        lemma_unsupported_grows(required, registry, n, m - 1);
    }
}

/// Collects the extensions in use that the registry does not know.
fn find_unknown(used: &Vec<Vec<u8>>, registry: &Registry) -> (r: Vec<Vec<u8>>)
    ensures
        texts_view(r@) == unknown(texts_view(used@), registry@, used.len() as int),
{
    let ghost names = texts_view(used@);
    let mut out: Vec<Vec<u8>> = Vec::new();
    let mut i: usize = 0;
    assert(texts_view(out@) =~= unknown(names, registry@, 0));
    while i < used.len()
        invariant
            i <= used.len(),
            names == texts_view(used@),
            texts_view(out@) == unknown(names, registry@, i as int),
        decreases used.len() - i,
    {
        assert(names[i as int] == used@[i as int]@);
        let ghost before = texts_view(out@);
        if registry.lookup(&used[i]).is_none() {
            out.push(clone_bytes(&used[i]));
            assert(texts_view(out@) =~= before.push(used@[i as int]@));
        }
        i += 1;
    }
    out
}

/// Decides whether every payload is accepted.
fn check_payloads(payloads: &Vec<Member>, registry: &Registry) -> (r: bool)
    ensures
        r == payloads_accepted(members_view(payloads@), registry@),
{
    let ghost ms = members_view(payloads@);
    let mut i: usize = 0;
    while i < payloads.len()
        invariant
            i <= payloads.len(),
            ms == members_view(payloads@),
            forall|j: int| 0 <= j < i ==> payload_accepted(#[trigger] ms[j], registry@),
        decreases payloads.len() - i,
    {
        assert(ms[i as int] == payloads@[i as int]@);
        match registry.lookup(&payloads[i].key) {
            Some(c) => {
                if !c.validate(&payloads[i].value) {
                    assert(!payload_accepted(ms[i as int], registry@));
                    return false;
                }
            },
            None => {},
        }
        i += 1;
    }
    true
}

/// Decodes a GLB container into a document, under the registry of the
/// extensions that are known.
pub fn decode(bytes: &Vec<u8>, registry: &Registry) -> (r: Result<Decoded, Error>)
    ensures
        match r {
            Ok(d) => decode_with(bytes@, registry@) == Ok::<DecodedView, ErrorView>(d@) && d@.document.wf(),
            Err(e) => decode_with(bytes@, registry@) == Err::<DecodedView, ErrorView>(e@),
        },
{
    let document = match read_document(bytes) {
        Ok(d) => d,
        Err(m) => {
            return Err(Error::MalformedAsset(m));
        },
    };
    match find_unsupported(&document.root.extensions_required, registry) {
        Some(name) => {
            return Err(Error::UnsupportedExtension(name));
        },
        None => {},
    }
    if !check_payloads(&document.root.extensions, registry) {
        return Err(Error::MalformedAsset(Malformed::BadSchema));
    }
    let skipped = find_unknown(&document.root.extensions_used, registry);
    Ok(Decoded { document, skipped })
}

/// Encodes a document as a GLB container. It fails, with
/// `EncodingOverflow`, exactly when the container would be longer than a
/// container can be.
pub fn encode(doc: &Document) -> (r: Result<Vec<u8>, Error>)
    ensures
        match r {
            Ok(bytes) => encode_spec(doc@) == Some(bytes@),
            Err(e) => encode_spec(doc@) is None && e == Error::EncodingOverflow,
        },
{
    write_document(doc)
}

/// What the bytes of a container denote is a well-formed document.
pub proof fn lemma_decoded_wf(bytes: Seq<u8>)
    requires
        decode_spec(bytes) is Ok,
    ensures
        decode_spec(bytes)->Ok_0.wf(),
{
    let chunks = split_spec(bytes)->Ok_0;
    let json = parse_document(chunks.json)->Some_0;
    match json {
        JsonView::Object(ms) => {
            lemma_root_of_ok(ms);
        },
        _ => {},
    }
    reveal(RootView::valid);
}

/// Round trip: where the bytes of a container denote a document under a
/// registry, and the document is written without a transform in between,
/// what was written denotes the same document under that registry, with
/// the same extensions named as unknown.
pub proof fn lemma_decode_encode_decode(bytes: Seq<u8>, registry: Seq<EntryView>)
    requires
        decode_with(bytes, registry) is Ok,
        encode_spec(decode_with(bytes, registry)->Ok_0.document) is Some,
    ensures
        decode_with(encode_spec(decode_with(bytes, registry)->Ok_0.document)->Some_0, registry)
            == decode_with(bytes, registry),
{
    lemma_decoded_wf(bytes);
    lemma_round_trip(decode_spec(bytes)->Ok_0, registry);
}

/// Round trip: a document that was read under a registry, written without
/// a transform in between, is read under that registry as the same
/// document, with the same extensions named as unknown.
pub proof fn lemma_round_trip(doc: DocumentView, registry: Seq<EntryView>)
    requires
        doc.wf(),
        encode_spec(doc) is Some,
    ensures
        decode_with(encode_spec(doc).unwrap(), registry) == admit_spec(doc, registry),
{
    lemma_decode_encode(doc);
}

} // verus!
