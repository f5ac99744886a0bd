//! The extension registry: which extensions the pipeline knows, and what
//! it can do with the payload of each.
use vstd::prelude::*;
use crate::bytes::clone_bytes;
use crate::error::{Error, ErrorView, Malformed};
use crate::fields::{find, is_key, lookup, to_vec};
use crate::json::{duplicate, items_view, lemma_array_view, lemma_object_view, members_view, Json, JsonView};
use crate::names::{
    EXT_MESHOPT_COMPRESSION, KHR_MATERIALS_EMISSIVE_STRENGTH, KHR_MATERIALS_IOR, KHR_MATERIALS_UNLIT,
    KHR_TEXTURE_TRANSFORM, KHR_XMP_JSON_LD, PACKETS,
};

verus! {

/// What the pipeline can do with the payload of an extension.
#[derive(Clone, Copy, Debug, PartialEq, Eq, Structural)]
pub enum Capability {
    /// Metadata packets: the payload is an object whose `packets`, if
    /// there are any, are objects.
    Metadata,
    /// Compressed mesh data that an outside codec understands; the
    /// payload is carried as it is.
    MeshCompression,
    /// The payload is carried as it is.
    Passthrough,
}

/// Whether every item is an object.
pub open spec fn all_objects(items: Seq<JsonView>) -> bool {
    forall|i: int| 0 <= i < items.len() ==> (#[trigger] items[i]) is Object
}

/// Whether `payload` is a payload that the capability accepts.
pub open spec fn accepts(capability: Capability, payload: JsonView) -> bool {
    match capability {
        Capability::Metadata => match payload {
            JsonView::Object(ms) => match find(ms, PACKETS@) {
                None => true,
                Some(JsonView::Array(items)) => all_objects(items),
                Some(_) => false,
            },
            _ => false,
        },
        _ => true,
    }
}

impl Capability {
    /// Decides whether the capability accepts `payload`.
    pub fn validate(&self, payload: &Json) -> (r: bool)
        ensures
            r == accepts(*self, payload@),
    {
        match self {
            Capability::Metadata => match payload {
                Json::Object(ms) => {
                    proof {
                        lemma_object_view(*ms);
                    }
                    match lookup(ms, &PACKETS) {
                        None => true,
                        Some(Json::Array(items)) => {
                            proof {
                                lemma_array_view(*items);
                            }
                            let mut i: usize = 0;
                            while i < items.len()
                                invariant
                                    i <= items.len(),
                                    *self == Capability::Metadata,
                                    payload@ == JsonView::Object(members_view(ms@)),
                                    find(members_view(ms@), PACKETS@) == Some(
                                        JsonView::Array(items_view(items@)),
                                    ),
                                    forall|j: int|
                                        0 <= j < i ==> (#[trigger] items_view(items@)[j]) is Object,
                                decreases items.len() - i,
                            {
                                assert(items_view(items@)[i as int] == items@[i as int]@);
                                match &items[i] {
                                    Json::Object(_) => {},
                                    _ => {
                                        assert(items_view(items@).len() == items.len());
                                        assert(!(items_view(items@)[i as int] is Object));
                                        return false;
                                    },
                                }
                                i += 1;
                            }
                            true
                        },
                        Some(_) => false,
                    }
                },
                _ => false,
            },
            _ => true,
        }
    }

    /// Reads a payload as it stands in an asset: a copy of it, if the
    /// capability accepts it.
    pub fn decode(&self, raw: &Json) -> (r: Result<Json, Error>)
        ensures
            match r {
                Ok(payload) => accepts(*self, raw@) && payload@ == raw@,
                Err(e) => !accepts(*self, raw@) && e == Error::MalformedAsset(Malformed::BadSchema),
            },
    {
        if self.validate(raw) {
            Ok(duplicate(raw))
        } else {
            Err(Error::MalformedAsset(Malformed::BadSchema))
        }
    }

    /// Writes a payload as it is to stand in an asset: a copy of it.
    pub fn encode(&self, payload: &Json) -> (r: Json)
        ensures
            r@ == payload@,
    {
        duplicate(payload)
    }
}

/// An entry of the registry.
#[derive(Debug, PartialEq, Eq)]
pub struct Entry {
    pub name: Vec<u8>,
    pub capability: Capability,
}

/// The mathematical value of an [`Entry`].
pub struct EntryView {
    pub name: Seq<u8>,
    pub capability: Capability,
}

impl View for Entry {
    type V = EntryView;

    open spec fn view(&self) -> EntryView {
        EntryView { name: self.name@, capability: self.capability }
    }
}

/// The extensions that one run of the pipeline knows, in the order in which
/// they were registered.
#[derive(Debug, PartialEq, Eq)]
pub struct Registry {
    pub entries: Vec<Entry>,
}

/// The capability that the first `n` entries hold for `name`.
pub open spec fn capability_among(entries: Seq<EntryView>, name: Seq<u8>, n: int) -> Option<Capability>
    decreases n,
{
    if n <= 0 || n > entries.len() {
        None
    } else {
        match capability_among(entries, name, n - 1) {
            Some(c) => Some(c),
            None => if entries[n - 1].name == name {
                Some(entries[n - 1].capability)
            } else {
                None
            },
        }
    }
}

impl View for Registry {
    type V = Seq<EntryView>;

    open spec fn view(&self) -> Seq<EntryView> {
        Seq::new(self.entries@.len(), |i: int| self.entries@[i]@)
    }
}

/// The capability that is registered for `name`.
pub open spec fn capability_of(registry: Seq<EntryView>, name: Seq<u8>) -> Option<Capability> {
    capability_among(registry, name, registry.len() as int)
}

/// What is registered among the first entries stays registered among more.
pub proof fn lemma_capability_grows(entries: Seq<EntryView>, name: Seq<u8>, n: int, m: int)
    requires
        0 <= n <= m <= entries.len(),
        capability_among(entries, name, n) is Some,
    ensures
        capability_among(entries, name, m) == capability_among(entries, name, n),
    decreases m - n,
{
    if n < m {
        lemma_capability_grows(entries, name, n, m - 1);
    }
}

/// The capabilities among the first entries depend on those entries only.
pub proof fn lemma_capability_prefix(a: Seq<EntryView>, b: Seq<EntryView>, name: Seq<u8>, n: int)
    requires
        0 <= n <= a.len(),
        n <= b.len(),
        forall|i: int| 0 <= i < n ==> a[i] == b[i],
    ensures
        capability_among(a, name, n) == capability_among(b, name, n),
    decreases n,
{
    if n > 0 {
        lemma_capability_prefix(a, b, name, n - 1);
    }
}

impl Registry {
    /// A registry that knows no extension.
    pub fn new() -> (r: Registry)
        ensures
            r@ == Seq::<EntryView>::empty(),
    {
        let r = Registry { entries: Vec::new() };
        assert(r@ =~= Seq::<EntryView>::empty());
        r
    }

    /// Finds the capability that is registered for `name`.
    pub fn lookup(&self, name: &Vec<u8>) -> (r: Option<Capability>)
        ensures
            r == capability_of(self@, name@),
    {
        let mut i: usize = 0;
        while i < self.entries.len()
            invariant
                i <= self.entries.len(),
                capability_among(self@, name@, i as int) is None,
            decreases self.entries.len() - i,
        {
            assert(self@[i as int] == self.entries@[i as int]@);
            if crate::bytes::same_bytes(&self.entries[i].name, name) {
                proof {
                    lemma_capability_grows(self@, name@, i + 1, self@.len() as int);
                }
                return Some(self.entries[i].capability);
            }
            i += 1;
        }
        None
    }

    /// Registers `capability` for `name`. It fails, and changes nothing,
    /// exactly when something is registered for the name already.
    pub fn register(&mut self, name: &[u8], capability: Capability) -> (r: Result<(), Error>)
        ensures
            match r {
                Ok(()) => capability_of(old(self)@, name@) is None && final(self)@ == old(self)@.push(
                    EntryView { name: name@, capability },
                ),
                Err(e) => capability_of(old(self)@, name@) is Some && final(self)@ == old(self)@ && e@
                    == ErrorView::DuplicateExtension(name@),
            },
    {
        let key = to_vec(name);
        match self.lookup(&key) {
            Some(_) => Err(Error::DuplicateExtension(key)),
            None => {
                self.entries.push(Entry { name: key, capability });
                assert(self@ =~= old(self)@.push(EntryView { name: name@, capability }));
                Ok(())
            },
        }
    }

    /// The registry of the extensions that the pipeline knows by itself.
    pub fn standard() -> (r: Registry)
        ensures
            r@ == standard_entries(),
    {
        let mut entries: Vec<Entry> = Vec::new();
        entries.push(Entry { name: to_vec(&KHR_XMP_JSON_LD), capability: Capability::Metadata });
        entries.push(Entry { name: to_vec(&KHR_MATERIALS_UNLIT), capability: Capability::Passthrough });
        entries.push(
            Entry { name: to_vec(&KHR_MATERIALS_EMISSIVE_STRENGTH), capability: Capability::Passthrough },
        );
        entries.push(Entry { name: to_vec(&KHR_MATERIALS_IOR), capability: Capability::Passthrough });
        entries.push(Entry { name: to_vec(&KHR_TEXTURE_TRANSFORM), capability: Capability::Passthrough });
        let r = Registry { entries };
        assert(r@.len() == 5);
        assert(r@[0] == r.entries@[0]@);
        assert(r@[1] == r.entries@[1]@);
        assert(r@[2] == r.entries@[2]@);
        assert(r@[3] == r.entries@[3]@);
        assert(r@[4] == r.entries@[4]@);
        assert(r@ =~= standard_entries());
        r
    }
}

/// The extensions that the pipeline knows by itself: the metadata
/// extension, and extensions whose payloads refer to no entity and can be
/// carried as they are.
pub open spec fn standard_entries() -> Seq<EntryView> {
    seq![
        EntryView { name: KHR_XMP_JSON_LD@, capability: Capability::Metadata },
        EntryView { name: KHR_MATERIALS_UNLIT@, capability: Capability::Passthrough },
        EntryView { name: KHR_MATERIALS_EMISSIVE_STRENGTH@, capability: Capability::Passthrough },
        EntryView { name: KHR_MATERIALS_IOR@, capability: Capability::Passthrough },
        EntryView { name: KHR_TEXTURE_TRANSFORM@, capability: Capability::Passthrough },
    ]
}

/// After a name was registered, it has its capability, and every other
/// name has what it had.
pub proof fn lemma_registered(entries: Seq<EntryView>, name: Seq<u8>, capability: Capability, other: Seq<u8>)
    requires
        capability_of(entries, name) is None,
    ensures
        capability_of(entries.push(EntryView { name, capability }), name) == Some(capability),
        other != name ==> capability_of(entries.push(EntryView { name, capability }), other)
            == capability_of(entries, other),
{
    let more = entries.push(EntryView { name, capability });
    lemma_capability_prefix(entries, more, name, entries.len() as int);
    lemma_capability_prefix(entries, more, other, entries.len() as int);
}

} // verus!
