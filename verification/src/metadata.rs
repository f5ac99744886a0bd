//! Metadata injection: building a metadata packet and attaching it at the
//! root of a document.
use vstd::prelude::*;
use crate::bytes::{clone_bytes, copy_range, same_bytes};
use crate::document::{Document, DocumentView};
use crate::entities::{clone_texts, RootView, PROPS_DEPTH};
use crate::error::{Error, ErrorView};
use crate::fields::{find, is_key, lookup, members_well_formed, put, texts_view, to_vec};
use crate::json::{
    duplicate, duplicate_members, items_view, lemma_array_view, lemma_object_view, members_view,
    well_formed, Json, JsonView, Member, MemberView,
};
use crate::names::{CONTEXT, KHR_XMP_JSON_LD, PACKETS};
use crate::registry::{accepts, all_objects, capability_of, Capability, EntryView, Registry};

verus! {

/// The first position from `j` on that holds a colon, or the length of the
/// name.
pub open spec fn colon_at(name: Seq<u8>, j: int) -> int
    decreases name.len() - j,
{
    if j < 0 || j >= name.len() {
        name.len() as int
    } else if name[j] == 0x3A {
        j
    } else {
        colon_at(name, j + 1)
    }
}

/// The namespace prefix of a property name: what stands before its first
/// colon, if it has one.
pub open spec fn prefix_of(name: Seq<u8>) -> Option<Seq<u8>> {
    if colon_at(name, 0) < name.len() {
        Some(name.subrange(0, colon_at(name, 0)))
    } else {
        None
    }
}

/// Whether every item is a text.
pub open spec fn all_texts(items: Seq<JsonView>) -> bool {
    forall|i: int| 0 <= i < items.len() ==> (#[trigger] items[i]) is Text
}

/// Whether a packet can hold the value: a text, or a list of texts.
pub open spec fn value_ok(v: JsonView) -> bool {
    match v {
        JsonView::Text(_) => true,
        JsonView::Array(items) => all_texts(items),
        _ => false,
    }
}

/// Whether a packet with the context can hold the property: its value is
/// a text or a list of texts, and its name has a prefix that the context
/// declares.
pub open spec fn property_ok(context: Seq<MemberView>, p: MemberView) -> bool {
    value_ok(p.value) && match prefix_of(p.key) {
        Some(prefix) => find(context, prefix) is Some,
        None => false,
    }
}

/// Whether the context maps every prefix to a text.
pub open spec fn context_ok(context: Seq<MemberView>) -> bool {
    forall|i: int| 0 <= i < context.len() ==> (#[trigger] context[i]).value is Text
}

/// Whether a packet can be made of the context and the properties.
pub open spec fn packet_ok(context: Seq<MemberView>, properties: Seq<MemberView>) -> bool {
    context_ok(context) && forall|i: int|
        0 <= i < properties.len() ==> property_ok(context, #[trigger] properties[i])
}

/// The packet: its context under `@context`, then its properties.
pub open spec fn packet(context: Seq<MemberView>, properties: Seq<MemberView>) -> JsonView {
    JsonView::Object(seq![MemberView { key: CONTEXT@, value: JsonView::Object(context) }] + properties)
}

/// The payload of the metadata extension that holds one packet.
pub open spec fn payload(context: Seq<MemberView>, properties: Seq<MemberView>) -> JsonView {
    JsonView::Object(
        seq![MemberView { key: PACKETS@, value: JsonView::Array(seq![packet(context, properties)]) }],
    )
}

/// The first `n` members without those named `name`.
pub open spec fn without(ms: Seq<MemberView>, name: Seq<u8>, n: int) -> Seq<MemberView>
    decreases n,
{
    if n <= 0 || n > ms.len() {
        Seq::empty()
    } else if ms[n - 1].key == name {
        without(ms, name, n - 1)
    } else {
        without(ms, name, n - 1).push(ms[n - 1])
    }
}

/// The payloads with `value` attached under `name`, in place of what was
/// there under that name.
pub open spec fn with_payload(ms: Seq<MemberView>, name: Seq<u8>, value: JsonView) -> Seq<MemberView> {
    without(ms, name, ms.len() as int).push(MemberView { key: name, value })
}

/// Whether `name` is among the first `n` names.
pub open spec fn named(names: Seq<Seq<u8>>, name: Seq<u8>, n: int) -> bool
    decreases n,
{
    if n <= 0 || n > names.len() {
        false
    } else {
        names[n - 1] == name || named(names, name, n - 1)
    }
}

/// The names with `name` among them.
pub open spec fn with_name(names: Seq<Seq<u8>>, name: Seq<u8>) -> Seq<Seq<u8>> {
    if named(names, name, names.len() as int) {
        names
    } else {
        names.push(name)
    }
}

/// The description with the metadata packet attached at its root under
/// the name of the metadata extension, and that extension among the
/// extensions in use.
pub open spec fn injected(root: RootView, context: Seq<MemberView>, properties: Seq<MemberView>) -> RootView {
    RootView {
        extensions: with_payload(root.extensions, KHR_XMP_JSON_LD@, payload(context, properties)),
        extensions_used: with_name(root.extensions_used, KHR_XMP_JSON_LD@),
        ..root
    }
}

/// Nothing named `name` is left among the members without it.
proof fn lemma_without(ms: Seq<MemberView>, name: Seq<u8>, n: int, depth: nat)
    requires
        0 <= n <= ms.len(),
    ensures
        find(without(ms, name, n), name) is None,
        members_well_formed(ms, depth) ==> members_well_formed(without(ms, name, n), depth),
    decreases n,
{
    if n > 0 {
        lemma_without(ms, name, n - 1, depth);
        if ms[n - 1].key != name {
            crate::fields::lemma_find_push(without(ms, name, n - 1), ms[n - 1], name);
        }
    }
}

/// Payloads stay well formed when a well-formed payload is attached.
pub proof fn lemma_attached_well_formed(ms: Seq<MemberView>, name: Seq<u8>, value: JsonView, depth: nat)
    requires
        members_well_formed(ms, depth),
        well_formed(value, depth),
    ensures
        members_well_formed(with_payload(ms, name, value), depth),
{
    lemma_without(ms, name, ms.len() as int, depth);
}

/// What was attached is what is found under its name.
pub proof fn lemma_attached(ms: Seq<MemberView>, name: Seq<u8>, value: JsonView)
    ensures
        find(with_payload(ms, name, value), name) == Some(value),
{
    lemma_without(ms, name, ms.len() as int, 0);
    crate::fields::lemma_find_push(
        without(ms, name, ms.len() as int),
        MemberView { key: name, value },
        name,
    );
}

/// After injection the packet stands at the root under the name of the
/// metadata extension.
pub proof fn lemma_injected(root: RootView, context: Seq<MemberView>, properties: Seq<MemberView>)
    ensures
        find(injected(root, context, properties).extensions, KHR_XMP_JSON_LD@) == Some(
            payload(context, properties),
        ),
{
    lemma_attached(root.extensions, KHR_XMP_JSON_LD@, payload(context, properties));
}

/// The payload of a packet that can be made is well formed, and the
/// metadata capability accepts it.
proof fn lemma_payload_ok(context: Seq<MemberView>, properties: Seq<MemberView>)
    requires
        packet_ok(context, properties),
    ensures
        well_formed(payload(context, properties), PROPS_DEPTH as nat),
        accepts(Capability::Metadata, payload(context, properties)),
{
    let d = PROPS_DEPTH as nat;
    let ctx = JsonView::Object(context);
    assert(well_formed(ctx, (d - 3) as nat)) by {
        assert forall|i: int| 0 <= i < context.len() implies well_formed(
            (#[trigger] context[i]).value,
            (d - 4) as nat,
        ) by {}
    }
    let inner = seq![MemberView { key: CONTEXT@, value: ctx }] + properties;
    assert forall|i: int| 0 <= i < inner.len() implies well_formed(
        (#[trigger] inner[i]).value,
        (d - 3) as nat,
    ) by {
        if i > 0 {
            let p = properties[i - 1];
            assert(inner[i] == p);
            assert(property_ok(context, p));
            match p.value {
                JsonView::Array(items) => {
                    assert forall|k: int| 0 <= k < items.len() implies well_formed(
                        #[trigger] items[k],
                        (d - 4) as nat,
                    ) by {}
                },
                _ => {},
            }
        }
    }
    let pk = packet(context, properties);
    assert(well_formed(pk, (d - 2) as nat));
    let items = seq![pk];
    assert forall|i: int| 0 <= i < items.len() implies well_formed(#[trigger] items[i], (d - 2) as nat) by {}
    assert(well_formed(JsonView::Array(items), (d - 1) as nat));
    let top = seq![MemberView { key: PACKETS@, value: JsonView::Array(items) }];
    assert forall|i: int| 0 <= i < top.len() implies well_formed((#[trigger] top[i]).value, (d - 1) as nat) by {}
    crate::fields::lemma_find_push(
        Seq::<MemberView>::empty(),
        MemberView { key: PACKETS@, value: JsonView::Array(items) },
        PACKETS@,
    );
    assert(Seq::<MemberView>::empty().push(MemberView { key: PACKETS@, value: JsonView::Array(items) })
        =~= top);
    assert(all_objects(items));
}

/// Decides whether a packet can hold the value.
fn check_value(v: &Json) -> (r: bool)
    ensures
        r == value_ok(v@),
{
    match v {
        Json::Text(_) => true,
        Json::Array(items) => {
            proof {
                lemma_array_view(*items);
            }
            let mut i: usize = 0;
            while i < items.len()
                invariant
                    i <= items.len(),
                    v@ == JsonView::Array(items_view(items@)),
                    forall|j: int| 0 <= j < i ==> (#[trigger] items_view(items@)[j]) is Text,
                decreases items.len() - i,
            {
                assert(items_view(items@)[i as int] == items@[i as int]@);
                match &items[i] {
                    Json::Text(_) => {},
                    _ => {
                        assert(items_view(items@).len() == items.len());
                        assert(!(items_view(items@)[i as int] is Text));
                        return false;
                    },
                }
                i += 1;
            }
            true
        },
        _ => false,
    }
}

/// Decides whether a packet with the context can hold the property.
fn check_property(context: &Vec<Member>, p: &Member) -> (r: bool)
    ensures
        r == property_ok(members_view(context@), p@),
{
    if !check_value(&p.value) {
        return false;
    }
    let mut j: usize = 0;
    while j < p.key.len() && p.key[j] != 0x3A
        invariant
            j <= p.key.len(),
            colon_at(p.key@, 0) == colon_at(p.key@, j as int),
        decreases p.key.len() - j,
    {
        j += 1;
    }
    if j >= p.key.len() {
        return false;
    }
    let prefix = copy_range(&p.key, 0, j);
    lookup(context, prefix.as_slice()).is_some()
}

/// Decides whether a packet can be made of the context and the
/// properties.
fn check_packet(context: &Vec<Member>, properties: &Vec<Member>) -> (r: bool)
    ensures
        r == packet_ok(members_view(context@), members_view(properties@)),
{
    let ghost cv = members_view(context@);
    let ghost pv = members_view(properties@);
    let mut i: usize = 0;
    while i < context.len()
        invariant
            i <= context.len(),
            cv == members_view(context@),
            forall|j: int| 0 <= j < i ==> (#[trigger] cv[j]).value is Text,
        decreases context.len() - i,
    {
        assert(cv[i as int] == context@[i as int]@);
        match &context[i].value {
            Json::Text(_) => {},
            _ => {
                assert(cv.len() == context.len());
                assert(!(cv[i as int].value is Text));
                return false;
            },
        }
        i += 1;
    }
    let mut k: usize = 0;
    while k < properties.len()
        invariant
            k <= properties.len(),
            cv == members_view(context@),
            pv == members_view(properties@),
            context_ok(cv),
            forall|j: int| 0 <= j < k ==> property_ok(cv, #[trigger] pv[j]),
        decreases properties.len() - k,
    {
        assert(pv[k as int] == properties@[k as int]@);
        if !check_property(context, &properties[k]) {
            assert(pv.len() == properties.len());
            assert(!property_ok(cv, pv[k as int]));
            return false;
        }
        k += 1;
    }
    true
}

/// Builds the payload that holds the packet.
fn build_payload(context: &Vec<Member>, properties: &Vec<Member>) -> (r: Json)
    ensures
        r@ == payload(members_view(context@), members_view(properties@)),
{
    let ctx = duplicate_members(context);
    proof {
        lemma_object_view(ctx);
    }
    let mut inner: Vec<Member> = Vec::new();
    assert(members_view(inner@) =~= Seq::<MemberView>::empty());
    put(&mut inner, &CONTEXT, Json::Object(ctx));
    crate::fields::put_all(&mut inner, properties);
    assert(members_view(inner@) =~= seq![
        MemberView { key: CONTEXT@, value: JsonView::Object(members_view(context@)) },
    ] + members_view(properties@));
    proof {
        lemma_object_view(inner);
    }
    let mut packets: Vec<Json> = Vec::new();
    packets.push(Json::Object(inner));
    proof {
        lemma_array_view(packets);
        assert(items_view(packets@) =~= seq![
            packet(members_view(context@), members_view(properties@)),
        ]);
    }
    let mut top: Vec<Member> = Vec::new();
    assert(members_view(top@) =~= Seq::<MemberView>::empty());
    put(&mut top, &PACKETS, Json::Array(packets));
    proof {
        lemma_object_view(top);
        assert(members_view(top@) =~= seq![
            MemberView {
                key: PACKETS@,
                value: JsonView::Array(seq![packet(members_view(context@), members_view(properties@))]),
            },
        ]);
    }
    Json::Object(top)
}

/// The payloads with `value` attached under `name`.
pub fn attach(ms: &Vec<Member>, name: &[u8], value: Json) -> (r: Vec<Member>)
    ensures
        members_view(r@) == with_payload(members_view(ms@), name@, value@),
{
    let ghost mv = members_view(ms@);
    let mut out: Vec<Member> = Vec::new();
    let mut i: usize = 0;
    assert(members_view(out@) =~= without(mv, name@, 0));
    while i < ms.len()
        invariant
            i <= ms.len(),
            mv == members_view(ms@),
            members_view(out@) == without(mv, name@, i as int),
        decreases ms.len() - i,
    {
        assert(mv[i as int] == ms@[i as int]@);
        let ghost before = members_view(out@);
        if !is_key(&ms[i].key, name) {
            out.push(Member { key: clone_bytes(&ms[i].key), value: duplicate(&ms[i].value) });
            assert(members_view(out@) =~= before.push(ms@[i as int]@));
        }
        i += 1;
    }
    put(&mut out, name, value);
    out
}

/// The names with `name` among them.
pub fn add_name(names: &Vec<Vec<u8>>, name: &[u8]) -> (r: Vec<Vec<u8>>)
    ensures
        texts_view(r@) == with_name(texts_view(names@), name@),
{
    let ghost nv = texts_view(names@);
    let mut out = clone_texts(names);
    let mut i: usize = 0;
    while i < names.len()
        invariant
            i <= names.len(),
            nv == texts_view(names@),
            texts_view(out@) == nv,
            !named(nv, name@, i as int),
        decreases names.len() - i,
    {
        assert(nv[i as int] == names@[i as int]@);
        if is_key(&names[i], name) {
            proof {
                lemma_named_grows(nv, name@, i + 1, nv.len() as int);
            }
            return out;
        }
        i += 1;
    }
    let ghost before = texts_view(out@);
    out.push(to_vec(name));
    assert(texts_view(out@) =~= before.push(name@));
    out
}

/// What is named among the first names is named among more.
proof fn lemma_named_grows(names: Seq<Seq<u8>>, name: Seq<u8>, n: int, m: int)
    requires
        0 <= n <= m <= names.len(),
        named(names, name, n),
    ensures
        named(names, name, m),
    decreases m - n,
{
    if n < m {
        lemma_named_grows(names, name, n, m - 1);
    }
}

/// What injecting metadata comes to: the description with the packet, or
/// the reason why there is none. A packet that cannot be made is invalid
/// metadata; so is a payload that the registered capability does not
/// accept; with nothing registered for the metadata extension, the
/// extension is unsupported.
pub open spec fn inject_spec(
    root: RootView,
    registry: Seq<EntryView>,
    context: Seq<MemberView>,
    properties: Seq<MemberView>,
) -> Result<RootView, ErrorView> {
    if !packet_ok(context, properties) {
        Err(ErrorView::InvalidMetadata)
    } else {
        match capability_of(registry, KHR_XMP_JSON_LD@) {
            None => Err(ErrorView::UnsupportedExtension(KHR_XMP_JSON_LD@)),
            Some(c) => if accepts(c, payload(context, properties)) {
                Ok(injected(root, context, properties))
            } else {
                Err(ErrorView::InvalidMetadata)
            },
        }
    }
}

/// The description with a packet is as well formed as it was without.
proof fn lemma_injected_wf(doc: DocumentView, context: Seq<MemberView>, properties: Seq<MemberView>)
    requires
        doc.wf(),
        packet_ok(context, properties),
    ensures
        (DocumentView { root: injected(doc.root, context, properties), data: doc.data }).wf(),
{
    reveal(RootView::ok);
    reveal(RootView::valid);
    lemma_payload_ok(context, properties);
    let d = PROPS_DEPTH as nat;
    lemma_without(doc.root.extensions, KHR_XMP_JSON_LD@, doc.root.extensions.len() as int, d);
}

/// Injects metadata: attaches a packet with the context and the
/// properties at the root of the document. On failure the document is as
/// it was.
pub fn inject_metadata(
    doc: &mut Document,
    registry: &Registry,
    context: &Vec<Member>,
    properties: &Vec<Member>,
) -> (r: Result<(), Error>)
    requires
        old(doc)@.wf(),
    ensures
        final(doc)@.wf(),
        final(doc)@.data == old(doc)@.data,
        match r {
            Ok(()) => inject_spec(
                old(doc)@.root,
                registry@,
                members_view(context@),
                members_view(properties@),
            ) == Ok::<RootView, ErrorView>(final(doc)@.root),
            Err(e) => inject_spec(
                old(doc)@.root,
                registry@,
                members_view(context@),
                members_view(properties@),
            ) == Err::<RootView, ErrorView>(e@) && final(doc)@ == old(doc)@,
        },
{
    if !check_packet(context, properties) {
        return Err(Error::InvalidMetadata);
    }
    let name = to_vec(&KHR_XMP_JSON_LD);
    let capability = match registry.lookup(&name) {
        Some(c) => c,
        None => {
            return Err(Error::UnsupportedExtension(name));
        },
    };
    let value = build_payload(context, properties);
    if !capability.validate(&value) {
        return Err(Error::InvalidMetadata);
    }
    proof {
        lemma_injected_wf(doc@, members_view(context@), members_view(properties@));
    }
    let extensions = attach(&doc.root.extensions, &KHR_XMP_JSON_LD, value);
    let used = add_name(&doc.root.extensions_used, &KHR_XMP_JSON_LD);
    doc.root.extensions = extensions;
    doc.root.extensions_used = used;
    Ok(())
}

} // verus!
