//! The transform pipeline: a declared sequence of transforms, applied in
//! order and stopped at the first failure, between decoding and encoding.
use vstd::prelude::*;
use crate::codec::{decode, decode_with, encode, encode_spec, DecodedView};
use crate::dedup::{dedup, deduped};
use crate::document::{Document, DocumentView};
use crate::entities::{views, RootView};
use crate::error::{Error, ErrorView};
use crate::json::{members_view, Member, MemberView};
use crate::metadata::{inject_metadata, inject_spec};
use crate::prune::{prune, pruned};
use crate::registry::{EntryView, Registry};

verus! {

/// A transform that the pipeline carries out by itself.
#[derive(Debug, PartialEq, Eq)]
pub enum Transform {
    /// Removes what nothing refers to.
    Prune,
    /// Merges what has the same value.
    Dedup,
    /// Attaches a metadata packet at the root.
    MetadataInject { context: Vec<Member>, properties: Vec<Member> },
}

/// The mathematical value of a [`Transform`].
pub enum TransformView {
    Prune,
    Dedup,
    MetadataInject { context: Seq<MemberView>, properties: Seq<MemberView> },
}

impl View for Transform {
    type V = TransformView;

    open spec fn view(&self) -> TransformView {
        match self {
            Transform::Prune => TransformView::Prune,
            Transform::Dedup => TransformView::Dedup,
            Transform::MetadataInject { context, properties } => TransformView::MetadataInject {
                context: members_view(context@),
                properties: members_view(properties@),
            },
        }
    }
}

/// The stage of the pipeline at which something failed.
#[derive(Clone, Copy, Debug, PartialEq, Eq, Structural)]
pub enum Stage {
    /// Reading the input.
    Decode,
    /// The transform at this place of the declared sequence.
    Transform(usize),
    /// Writing the output.
    Encode,
}

/// A failure of the pipeline: the stage that failed, and why.
#[derive(Debug, PartialEq, Eq)]
pub struct PipelineError {
    pub stage: Stage,
    pub error: Error,
}

/// The mathematical value of a [`PipelineError`].
pub struct PipelineErrorView {
    pub stage: Stage,
    pub error: ErrorView,
}

impl View for PipelineError {
    type V = PipelineErrorView;

    open spec fn view(&self) -> PipelineErrorView {
        PipelineErrorView { stage: self.stage, error: self.error@ }
    }
}

/// What one transform makes of a description, or why it fails.
pub open spec fn step_spec(root: RootView, registry: Seq<EntryView>, t: TransformView) -> Result<
    RootView,
    ErrorView,
> {
    match t {
        TransformView::Prune => Ok(pruned(root)),
        TransformView::Dedup => Ok(deduped(root)),
        TransformView::MetadataInject { context, properties } => inject_spec(
            root,
            registry,
            context,
            properties,
        ),
    }
}

/// What the transforms from place `i` on make of a description: each is
/// applied to what the one before made; the first failure ends the run
/// and is reported with its place.
pub open spec fn run_spec(root: RootView, registry: Seq<EntryView>, steps: Seq<TransformView>, i: int) -> Result<
    RootView,
    PipelineErrorView,
>
    decreases steps.len() - i,
{
    if i < 0 || i >= steps.len() {
        Ok(root)
    } else {
        match step_spec(root, registry, steps[i]) {
            Err(e) => Err(PipelineErrorView { stage: Stage::Transform(i as usize), error: e }),
            Ok(next) => run_spec(next, registry, steps, i + 1),
        }
    }
}

/// What the pipeline makes of the bytes of a container: they are decoded,
/// the transforms are run, and the result is encoded. A failure of any
/// stage is the result; there is then no output.
pub open spec fn process_spec(input: Seq<u8>, registry: Seq<EntryView>, steps: Seq<TransformView>) -> Result<
    Seq<u8>,
    PipelineErrorView,
> {
    match decode_with(input, registry) {
        Err(e) => Err(PipelineErrorView { stage: Stage::Decode, error: e }),
        Ok(decoded) => match run_spec(decoded.document.root, registry, steps, 0) {
            Err(e) => Err(e),
            Ok(root) => match encode_spec(DocumentView { root, data: decoded.document.data }) {
                Some(bytes) => Ok(bytes),
                None => Err(
                    PipelineErrorView { stage: Stage::Encode, error: ErrorView::EncodingOverflow },
                ),
            },
        },
    }
}

/// Short circuit: where a sequence of transforms fails, what is declared
/// after it makes no difference.
pub proof fn lemma_short_circuit(
    root: RootView,
    registry: Seq<EntryView>,
    steps: Seq<TransformView>,
    rest: Seq<TransformView>,
    i: int,
)
    requires
        0 <= i <= steps.len(),
        run_spec(root, registry, steps, i) is Err,
    ensures
        run_spec(root, registry, steps + rest, i) == run_spec(root, registry, steps, i),
    decreases steps.len() - i,
{
    if i < steps.len() {
        assert((steps + rest)[i] == steps[i]);
        match step_spec(root, registry, steps[i]) {
            Err(e) => {},
            Ok(next) => {
                lemma_short_circuit(next, registry, steps, rest, i + 1);
            },
        }
    }
}

/// Input that is no container fails every pipeline at the first stage, as
/// a malformed asset.
pub proof fn lemma_malformed_input(input: Seq<u8>, registry: Seq<EntryView>, steps: Seq<TransformView>)
    requires
        crate::container::split_spec(input) is Err,
    ensures
        process_spec(input, registry, steps) == Err::<Seq<u8>, PipelineErrorView>(
            PipelineErrorView {
                stage: Stage::Decode,
                error: ErrorView::MalformedAsset(crate::container::split_spec(input)->Err_0),
            },
        ),
{
}

/// A container that is cut short, so that it holds fewer bytes than its
/// header states, is no container.
pub proof fn lemma_truncated(input: Seq<u8>)
    requires
        input.len() >= 12,
        crate::bytes::le32(input, 0) == crate::container::MAGIC,
        crate::bytes::le32(input, 4) == crate::container::VERSION,
        crate::bytes::le32(input, 8) > input.len(),
    ensures
        crate::container::split_spec(input) == Err::<crate::container::ChunksView, crate::error::Malformed>(
            crate::error::Malformed::Truncated,
        ),
{
}

/// Carries out one transform.
fn step(doc: &mut Document, registry: &Registry, t: &Transform) -> (r: Result<(), Error>)
    requires
        old(doc)@.wf(),
    ensures
        final(doc)@.wf(),
        final(doc)@.data == old(doc)@.data,
        match r {
            Ok(()) => step_spec(old(doc)@.root, registry@, t@) == Ok::<RootView, ErrorView>(
                final(doc)@.root,
            ),
            Err(e) => step_spec(old(doc)@.root, registry@, t@) == Err::<RootView, ErrorView>(e@),
        },
{
    match t {
        Transform::Prune => {
            prune(doc);
            Ok(())
        },
        Transform::Dedup => {
            dedup(doc);
            Ok(())
        },
        Transform::MetadataInject { context, properties } => inject_metadata(
            doc,
            registry,
            context,
            properties,
        ),
    }
}

/// Runs the transforms on a document, in their order, and stops at the
/// first that fails. After a failure the document is not to be used.
pub fn run(doc: &mut Document, registry: &Registry, steps: &Vec<Transform>) -> (r: Result<
    (),
    PipelineError,
>)
    requires
        old(doc)@.wf(),
    ensures
        final(doc)@.wf(),
        final(doc)@.data == old(doc)@.data,
        match r {
            Ok(()) => run_spec(old(doc)@.root, registry@, views(steps@), 0) == Ok::<
                RootView,
                PipelineErrorView,
            >(final(doc)@.root),
            Err(e) => run_spec(old(doc)@.root, registry@, views(steps@), 0) == Err::<
                RootView,
                PipelineErrorView,
            >(e@),
        },
{
    let ghost sv = views(steps@);
    let mut i: usize = 0;
    while i < steps.len()
        invariant
            i <= steps.len(),
            sv == views(steps@),
            doc@.wf(),
            doc@.data == old(doc)@.data,
            run_spec(old(doc)@.root, registry@, sv, 0) == run_spec(doc@.root, registry@, sv, i as int),
        decreases steps.len() - i,
    {
        assert(sv[i as int] == steps@[i as int]@);
        match step(doc, registry, &steps[i]) {
            Ok(()) => {},
            Err(error) => {
                return Err(PipelineError { stage: Stage::Transform(i), error });
            },
        }
        i += 1;
    }
    Ok(())
}

/// Runs the whole pipeline on the bytes of a container: decode, the
/// transforms in their order, encode.
pub fn process(input: &Vec<u8>, registry: &Registry, steps: &Vec<Transform>) -> (r: Result<
    Vec<u8>,
    PipelineError,
>)
    ensures
        match r {
            Ok(bytes) => process_spec(input@, registry@, views(steps@)) == Ok::<
                Seq<u8>,
                PipelineErrorView,
            >(bytes@),
            Err(e) => process_spec(input@, registry@, views(steps@)) == Err::<
                Seq<u8>,
                PipelineErrorView,
            >(e@),
        },
{
    let decoded = match decode(input, registry) {
        Ok(d) => d,
        Err(error) => {
            return Err(PipelineError { stage: Stage::Decode, error });
        },
    };
    let mut doc = decoded.document;
    match run(&mut doc, registry, steps) {
        Ok(()) => {},
        Err(e) => {
            return Err(e);
        },
    }
    match encode(&doc) {
        Ok(bytes) => Ok(bytes),
        Err(error) => Err(PipelineError { stage: Stage::Encode, error }),
    }
}

} // verus!
