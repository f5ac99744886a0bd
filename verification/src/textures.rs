//! Texture compression: which images an outside codec is to compress, and
//! the session in which its results are taken in, one image at a time.
use vstd::prelude::*;
use crate::bytes::{clone_bytes, copy_range};
use crate::codec::{decode, decode_with, encode, encode_spec, DecodedView};
use crate::document::{below, Document, DocumentView};
use crate::entities::{clone_text, opt_bytes, Root, RootView, TextureRefView};
use crate::error::{Error, ErrorView};
use crate::fields::{texts_view, to_vec};
use crate::images::{can_append, image_bytes, image_replaced, replace_image, view_bytes};
use crate::names::{IMAGE_AVIF, IMAGE_JPEG, IMAGE_PNG, IMAGE_WEBP};
use crate::pipeline::{PipelineError, PipelineErrorView, Stage};
use crate::references::{mark_one, mark_ref, no_marks, ref_is};
use crate::registry::{standard_entries, EntryView, Registry};

verus! {

/// An image format that the outside codec can produce.
#[derive(Clone, Copy, Debug, PartialEq, Eq, Structural)]
pub enum Format {
    Webp,
    Jpeg,
    Png,
    Avif,
}

/// A set of the slots in which a material holds textures.
#[derive(Clone, Copy, Debug, PartialEq, Eq, Structural)]
pub struct Slots {
    pub base_color: bool,
    pub metallic_roughness: bool,
    pub normal: bool,
    pub occlusion: bool,
    pub emissive: bool,
}

/// What the outside codec is told: the format to produce, the quality,
/// the largest width and height, and the slots whose textures are left
/// alone.
#[derive(Clone, Copy, Debug, PartialEq, Eq, Structural)]
pub struct CompressConfig {
    pub format: Format,
    pub quality: u8,
    pub max_width: u32,
    pub max_height: u32,
    pub exclude: Slots,
}

/// The configuration of [`crate::optimize_textures`]: WebP at quality 70,
/// at most 512 by 512, normal maps left alone.
pub open spec fn default_config() -> CompressConfig {
    CompressConfig {
        format: Format::Webp,
        quality: 70,
        max_width: 512,
        max_height: 512,
        exclude: Slots {
            base_color: false,
            metallic_roughness: false,
            normal: true,
            occlusion: false,
            emissive: false,
        },
    }
}

/// The media type of a format.
pub open spec fn mime_spec(format: Format) -> Seq<u8> {
    match format {
        Format::Webp => IMAGE_WEBP@,
        Format::Jpeg => IMAGE_JPEG@,
        Format::Png => IMAGE_PNG@,
        Format::Avif => IMAGE_AVIF@,
    }
}

/// The media type of a format.
pub fn mime_of(format: Format) -> (r: Vec<u8>)
    ensures
        r@ == mime_spec(format),
{
    match format {
        Format::Webp => to_vec(&IMAGE_WEBP),
        Format::Jpeg => to_vec(&IMAGE_JPEG),
        Format::Png => to_vec(&IMAGE_PNG),
        Format::Avif => to_vec(&IMAGE_AVIF),
    }
}

/// Whether the slot is one of the set and holds texture `t`.
pub open spec fn slot_holds(member: bool, r: Option<TextureRefView>, t: usize) -> bool {
    member && ref_is(r, t)
}

/// Whether material `m` holds texture `t` in one of the slots.
pub open spec fn material_excludes(root: RootView, m: int, slots: Slots, t: usize) -> bool {
    let x = root.materials[m];
    ||| match x.pbr {
        Some(p) => slot_holds(slots.base_color, p.base_color, t) || slot_holds(
            slots.metallic_roughness,
            p.metallic_roughness,
            t,
        ),
        None => false,
    }
    ||| slot_holds(slots.normal, x.normal, t)
    ||| slot_holds(slots.occlusion, x.occlusion, t)
    ||| slot_holds(slots.emissive, x.emissive, t)
}

/// Whether one of the first `n` materials holds texture `t` in one of the
/// slots.
pub open spec fn materials_exclude(root: RootView, n: int, slots: Slots, t: usize) -> bool {
    exists|m: int| 0 <= m < n && material_excludes(root, m, slots, t)
}

/// Whether a material holds texture `t` in one of the slots.
pub open spec fn texture_excluded(root: RootView, slots: Slots, t: usize) -> bool {
    materials_exclude(root, root.materials.len() as int, slots, t)
}

/// Whether texture `t` shows image `i`.
pub open spec fn texture_uses(root: RootView, t: int, i: usize) -> bool {
    root.textures[t].source == Some(i)
}

/// Whether one of the first `n` textures shows image `i`.
pub open spec fn textures_use(root: RootView, n: int, i: usize) -> bool {
    exists|t: int| 0 <= t < n && texture_uses(root, t, i)
}

/// Whether texture `t` shows image `i` and is held in one of the slots.
pub open spec fn texture_holds(root: RootView, slots: Slots, t: int, i: usize) -> bool {
    root.textures[t].source == Some(i) && texture_excluded(root, slots, t as usize)
}

/// Whether one of the first `n` textures shows image `i` and is held in
/// one of the slots.
pub open spec fn textures_hold(root: RootView, slots: Slots, n: int, i: usize) -> bool {
    exists|t: int| 0 <= t < n && texture_holds(root, slots, t, i)
}

/// Whether image `i` is to be compressed: its bytes lie in the buffer, a
/// texture shows it, and no texture that shows it is held in a slot that
/// is left alone.
pub open spec fn is_job(root: RootView, exclude: Slots, i: int) -> bool {
    &&& 0 <= i < root.images.len()
    &&& root.images[i].view is Some
    &&& textures_use(root, root.textures.len() as int, i as usize)
    &&& !textures_hold(root, exclude, root.textures.len() as int, i as usize)
}

/// The images among the first `n` that are to be compressed, in their
/// order.
pub open spec fn jobs(root: RootView, exclude: Slots, n: int) -> Seq<usize>
    decreases n,
{
    if n <= 0 || n > root.images.len() {
        Seq::empty()
    } else if is_job(root, exclude, n - 1) {
        jobs(root, exclude, n - 1).push((n - 1) as usize)
    } else {
        jobs(root, exclude, n - 1)
    }
}

proof fn lemma_materials_exclude_step(root: RootView, n: int, slots: Slots, t: usize)
    requires
        0 <= n,
    ensures
        materials_exclude(root, n + 1, slots, t) == (materials_exclude(root, n, slots, t)
            || material_excludes(root, n, slots, t)),
{
    if materials_exclude(root, n, slots, t) {
        let w = choose|w: int| 0 <= w < n && #[trigger] material_excludes(root, w, slots, t);
        assert(0 <= w < n + 1 && material_excludes(root, w, slots, t));
    }
    if material_excludes(root, n, slots, t) {
        assert(0 <= n < n + 1 && material_excludes(root, n, slots, t));
    }
    if materials_exclude(root, n + 1, slots, t) {
        let w = choose|w: int| 0 <= w < n + 1 && #[trigger] material_excludes(root, w, slots, t);
        if w < n {
            assert(0 <= w < n && material_excludes(root, w, slots, t));
        }
    }
}

proof fn lemma_textures_use_step(root: RootView, n: int, i: usize)
    requires
        0 <= n,
    ensures
        textures_use(root, n + 1, i) == (textures_use(root, n, i) || texture_uses(root, n, i)),
{
    if textures_use(root, n, i) {
        let w = choose|w: int| 0 <= w < n && #[trigger] texture_uses(root, w, i);
        assert(0 <= w < n + 1 && texture_uses(root, w, i));
    }
    if texture_uses(root, n, i) {
        assert(0 <= n < n + 1 && texture_uses(root, n, i));
    }
    if textures_use(root, n + 1, i) {
        let w = choose|w: int| 0 <= w < n + 1 && #[trigger] texture_uses(root, w, i);
        if w < n {
            assert(0 <= w < n && texture_uses(root, w, i));
        }
    }
}

proof fn lemma_textures_hold_step(root: RootView, slots: Slots, n: int, i: usize)
    requires
        0 <= n,
    ensures
        textures_hold(root, slots, n + 1, i) == (textures_hold(root, slots, n, i) || texture_holds(
            root,
            slots,
            n,
            i,
        )),
{
    if textures_hold(root, slots, n, i) {
        let w = choose|w: int| 0 <= w < n && #[trigger] texture_holds(root, slots, w, i);
        assert(0 <= w < n + 1 && texture_holds(root, slots, w, i));
    }
    if texture_holds(root, slots, n, i) {
        assert(0 <= n < n + 1 && texture_holds(root, slots, n, i));
    }
    if textures_hold(root, slots, n + 1, i) {
        let w = choose|w: int| 0 <= w < n + 1 && #[trigger] texture_holds(root, slots, w, i);
        if w < n {
            assert(0 <= w < n && texture_holds(root, slots, w, i));
        }
    }
}

/// Sets the mark of the texture in the slot, if the slot is in the set.
fn mark_slot(marks: &mut Vec<bool>, member: bool, r: &Option<crate::entities::TextureRef>)
    requires
        crate::document::ref_below(crate::entities::opt_view(*r), old(marks).len() as nat),
    ensures
        final(marks).len() == old(marks).len(),
        forall|j: int|
            0 <= j < old(marks).len() ==> #[trigger] final(marks)@[j] == (old(marks)@[j] || slot_holds(
                member,
                crate::entities::opt_view(*r),
                j as usize,
            )),
{
    if member {
        mark_ref(marks, r);
    }
}

impl Root {
    /// Finds the textures that a material holds in one of the slots.
    pub fn mark_excluded(&self, slots: Slots) -> (r: Vec<bool>)
        requires
            self@.valid(),
        ensures
            r.len() == self.textures.len(),
            forall|i: int|
                0 <= i < self.textures.len() ==> #[trigger] r@[i] == texture_excluded(
                    self@,
                    slots,
                    i as usize,
                ),
    {
        let n = self.textures.len();
        let mut marks = no_marks(n);
        let mut m: usize = 0;
        while m < self.materials.len()
            invariant
                m <= self.materials.len(),
                self@.valid(),
                marks.len() == n,
                n == self.textures.len(),
                forall|i: int|
                    0 <= i < n ==> #[trigger] marks@[i] == materials_exclude(
                        self@,
                        m as int,
                        slots,
                        i as usize,
                    ),
            decreases self.materials.len() - m,
        {
            proof {
                reveal(RootView::valid);
            }
            assert(self@.materials[m as int] == self.materials@[m as int]@);
            assert(self@.material_valid(self@.materials[m as int]));
            let x = &self.materials[m];
            match &x.pbr {
                Some(pbr) => {
                    mark_slot(&mut marks, slots.base_color, &pbr.base_color);
                    mark_slot(&mut marks, slots.metallic_roughness, &pbr.metallic_roughness);
                },
                None => {},
            }
            mark_slot(&mut marks, slots.normal, &x.normal);
            mark_slot(&mut marks, slots.occlusion, &x.occlusion);
            mark_slot(&mut marks, slots.emissive, &x.emissive);
            proof {
                assert forall|i: int| 0 <= i < n implies #[trigger] marks@[i] == materials_exclude(
                    self@,
                    m + 1,
                    slots,
                    i as usize,
                ) by {
                    lemma_materials_exclude_step(self@, m as int, slots, i as usize);
                }
            }
            m += 1;
        }
        marks
    }

    /// Finds the images that are to be compressed.
    pub fn find_jobs(&self, exclude: Slots) -> (r: Vec<usize>)
        requires
            self@.valid(),
        ensures
            r@ == jobs(self@, exclude, self@.images.len() as int),
    {
        let excluded = self.mark_excluded(exclude);
        let n = self.images.len();
        let mut used = no_marks(n);
        let mut held = no_marks(n);
        let mut t: usize = 0;
        while t < self.textures.len()
            invariant
                t <= self.textures.len(),
                self@.valid(),
                used.len() == n,
                held.len() == n,
                n == self.images.len(),
                excluded.len() == self.textures.len(),
                forall|i: int|
                    0 <= i < self.textures.len() ==> #[trigger] excluded@[i] == texture_excluded(
                        self@,
                        exclude,
                        i as usize,
                    ),
                forall|i: int| 0 <= i < n ==> #[trigger] used@[i] == textures_use(self@, t as int, i as usize),
                forall|i: int|
                    0 <= i < n ==> #[trigger] held@[i] == textures_hold(
                        self@,
                        exclude,
                        t as int,
                        i as usize,
                    ),
            decreases self.textures.len() - t,
        {
            proof {
                reveal(RootView::valid);
            }
            assert(self@.textures[t as int] == self.textures@[t as int]@);
            assert(self@.texture_valid(self@.textures[t as int]));
            mark_one(&mut used, self.textures[t].source);
            if excluded[t] {
                mark_one(&mut held, self.textures[t].source);
            }
            proof {
                assert forall|i: int| 0 <= i < n implies #[trigger] used@[i] == textures_use(
                    self@,
                    t + 1,
                    i as usize,
                ) by {
                    lemma_textures_use_step(self@, t as int, i as usize);
                }
                assert forall|i: int| 0 <= i < n implies #[trigger] held@[i] == textures_hold(
                    self@,
                    exclude,
                    t + 1,
                    i as usize,
                ) by {
                    lemma_textures_hold_step(self@, exclude, t as int, i as usize);
                }
            }
            t += 1;
        }
        let mut out: Vec<usize> = Vec::new();
        let mut i: usize = 0;
        while i < n
            invariant
                i <= n,
                n == self.images.len(),
                used.len() == n,
                held.len() == n,
                forall|k: int|
                    0 <= k < n ==> #[trigger] used@[k] == textures_use(
                        self@,
                        self@.textures.len() as int,
                        k as usize,
                    ),
                forall|k: int|
                    0 <= k < n ==> #[trigger] held@[k] == textures_hold(
                        self@,
                        exclude,
                        self@.textures.len() as int,
                        k as usize,
                    ),
                out@ == jobs(self@, exclude, i as int),
            decreases n - i,
        {
            assert(self@.images[i as int] == self.images@[i as int]@);
            if self.images[i].view.is_some() && used[i] && !held[i] {
                out.push(i);
            }
            i += 1;
        }
        out
    }
}

/// What the outside codec is asked for: to compress the bytes of an
/// image.
#[derive(Debug, PartialEq, Eq)]
pub struct ImageJob {
    /// The image.
    pub image: usize,
    /// Its bytes.
    pub bytes: Vec<u8>,
    /// Their media type, if the asset states it.
    pub mime: Option<Vec<u8>>,
    /// What to produce.
    pub config: CompressConfig,
}

/// The mathematical value of an [`ImageJob`].
pub struct ImageJobView {
    pub image: usize,
    pub bytes: Seq<u8>,
    pub mime: Option<Seq<u8>>,
    pub config: CompressConfig,
}

impl View for ImageJob {
    type V = ImageJobView;

    open spec fn view(&self) -> ImageJobView {
        ImageJobView { image: self.image, bytes: self.bytes@, mime: opt_bytes(self.mime), config: self.config }
    }
}

/// A session of texture compression: the document, the images that are
/// still to be compressed, and whether the session has failed.
#[derive(Debug, PartialEq, Eq)]
pub struct TextureSession {
    pub document: Document,
    pub config: CompressConfig,
    pub pending: Vec<usize>,
    pub failed: bool,
}

/// The mathematical value of a [`TextureSession`].
pub struct TextureSessionView {
    pub document: DocumentView,
    pub config: CompressConfig,
    pub pending: Seq<usize>,
    pub failed: bool,
}

impl View for TextureSession {
    type V = TextureSessionView;

    open spec fn view(&self) -> TextureSessionView {
        TextureSessionView {
            document: self.document@,
            config: self.config,
            pending: self.pending@,
            failed: self.failed,
        }
    }
}

impl TextureSessionView {
    /// Whether the session is well formed: its document is, and every
    /// image that is still to be compressed has its bytes in the buffer.
    pub open spec fn wf(self) -> bool {
        &&& self.document.wf()
        &&& forall|k: int|
            0 <= k < self.pending.len() ==> (#[trigger] self.pending[k]) < self.document.root.images.len()
                && self.document.root.images[self.pending[k] as int].view is Some
    }

    /// What the outside codec is to do next: to compress the first image
    /// that is still to be compressed, unless the session has failed or
    /// no image is left.
    pub open spec fn request(self) -> Option<ImageJobView> {
        if self.failed || self.pending.len() == 0 {
            None
        } else {
            let image = self.pending[0];
            Some(
                ImageJobView {
                    image,
                    bytes: image_bytes(self.document, image as int).unwrap(),
                    mime: self.document.root.images[image as int].mime,
                    config: self.config,
                },
            )
        }
    }

    /// The session after the outside codec has answered. Bytes take the
    /// place of the bytes of the image that was asked for; a failure of
    /// the codec, an answer that was not asked for, and bytes for which
    /// the buffer has no room fail the session.
    pub open spec fn supplied(self, reply: Result<Seq<u8>, Seq<u8>>) -> Result<
        TextureSessionView,
        ErrorView,
    > {
        if self.failed || self.pending.len() == 0 {
            Err(ErrorView::Unfinished)
        } else {
            match reply {
                Err(message) => Err(ErrorView::Codec(message)),
                Ok(bytes) => if can_append(self.document, bytes) {
                    Ok(
                        TextureSessionView {
                            document: image_replaced(
                                self.document,
                                self.pending[0] as int,
                                bytes,
                                mime_spec(self.config.format),
                            ),
                            config: self.config,
                            pending: self.pending.subrange(1, self.pending.len() as int),
                            failed: false,
                        },
                    )
                } else {
                    Err(ErrorView::EncodingOverflow)
                },
            }
        }
    }

    /// The output of the session: the encoded document, once every image
    /// was compressed. A session that has failed, or in which images are
    /// still to be compressed, has no output.
    pub open spec fn finished(self) -> Result<Seq<u8>, PipelineErrorView> {
        if self.failed || self.pending.len() > 0 {
            Err(PipelineErrorView { stage: Stage::Transform(0), error: ErrorView::Unfinished })
        } else {
            match encode_spec(self.document) {
                Some(bytes) => Ok(bytes),
                None => Err(
                    PipelineErrorView { stage: Stage::Encode, error: ErrorView::EncodingOverflow },
                ),
            }
        }
    }
}

/// The jobs are images whose bytes lie in the buffer.
proof fn lemma_jobs(root: RootView, exclude: Slots, n: int)
    requires
        0 <= n <= root.images.len(),
        root.images.len() <= usize::MAX,
    ensures
        forall|k: int|
            0 <= k < jobs(root, exclude, n).len() ==> is_job(
                root,
                exclude,
                (#[trigger] jobs(root, exclude, n)[k]) as int,
            ),
    decreases n,
{
    if n > 0 {
        lemma_jobs(root, exclude, n - 1);
        let all = jobs(root, exclude, n);
        let before = jobs(root, exclude, n - 1);
        assert forall|k: int| 0 <= k < all.len() implies is_job(root, exclude, (#[trigger] all[k]) as int) by {
            if k < before.len() {
                assert(all[k] == before[k]);
            }
        }
    }
}

/// An image that a texture in a slot that is left alone shows is not to
/// be compressed.
pub proof fn lemma_excluded_is_no_job(root: RootView, exclude: Slots, t: int, i: int)
    requires
        0 <= t < root.textures.len(),
        root.textures[t].source == Some(i as usize),
        texture_excluded(root, exclude, t as usize),
    ensures
        !is_job(root, exclude, i),
{
    assert(texture_holds(root, exclude, t, i as usize));
}

impl TextureSession {
    /// Starts a session of texture compression on a document: what is to
    /// be compressed are the images that `config` does not leave alone.
    pub fn start(document: Document, config: CompressConfig) -> (r: TextureSession)
        requires
            document@.wf(),
        ensures
            r@.wf(),
            r@ == (TextureSessionView {
                document: document@,
                config,
                pending: jobs(document@.root, config.exclude, document@.root.images.len() as int),
                failed: false,
            }),
    {
        let pending = document.root.find_jobs(config.exclude);
        proof {
            assert(document@.root.images.len() == document.root.images.len());
            lemma_jobs(document@.root, config.exclude, document@.root.images.len() as int);
        }
        TextureSession { document, config, pending, failed: false }
    }

    /// Gives the document back once every image was compressed. A session
    /// that has failed, or in which images are still to be compressed,
    /// gives nothing.
    pub fn into_document(self) -> (r: Result<Document, PipelineError>)
        ensures
            match r {
                Ok(doc) => !self@.failed && self@.pending.len() == 0 && doc@ == self@.document,
                Err(e) => (self@.failed || self@.pending.len() > 0) && e@ == (PipelineErrorView {
                    stage: Stage::Transform(0),
                    error: ErrorView::Unfinished,
                }),
            },
    {
        if self.failed || self.pending.len() > 0 {
            return Err(PipelineError { stage: Stage::Transform(0), error: Error::Unfinished });
        }
        Ok(self.document)
    }

    /// Decides whether the session is well formed.
    pub fn check(&self) -> (r: bool)
        ensures
            r == self@.wf(),
    {
        if !self.document.validate() {
            return false;
        }
        let mut k: usize = 0;
        while k < self.pending.len()
            invariant
                k <= self.pending.len(),
                forall|j: int|
                    0 <= j < k ==> (#[trigger] self@.pending[j]) < self@.document.root.images.len()
                        && self@.document.root.images[self@.pending[j] as int].view is Some,
            decreases self.pending.len() - k,
        {
            let i = self.pending[k];
            if i >= self.document.root.images.len() {
                return false;
            }
            assert(self@.document.root.images[i as int] == self.document.root.images@[i as int]@);
            if self.document.root.images[i].view.is_none() {
                return false;
            }
            k += 1;
        }
        true
    }

    /// What the outside codec is to do next.
    pub fn request(&self) -> (r: Option<ImageJob>)
        requires
            self@.wf(),
        ensures
            crate::entities::opt_view(r) == self@.request(),
    {
        if self.failed || self.pending.len() == 0 {
            return None;
        }
        proof {
            reveal(RootView::valid);
        }
        let image = self.pending[0];
        assert(self@.pending[0] == image);
        let doc = &self.document;
        assert(doc@.root.images[image as int] == doc.root.images@[image as int]@);
        assert(doc@.root.image_valid(doc@.root.images[image as int]));
        let v = match doc.root.images[image].view {
            Some(v) => v,
            None => {
                return None;
            },
        };
        assert(doc@.root.views[v as int] == doc.root.views@[v as int]@);
        assert(doc@.root.view_valid(doc@.root.views[v as int]));
        let view = &doc.root.views[v];
        assert(doc@.root.buffers[view.buffer as int] == doc.root.buffers@[view.buffer as int]@);
        assert(doc@.data[view.buffer as int] == doc.data@[view.buffer as int]@);
        let bytes = copy_range(&doc.data[view.buffer], view.offset, view.offset + view.length);
        Some(ImageJob { image, bytes, mime: clone_text(&doc.root.images[image].mime), config: self.config })
    }

    /// Takes in the answer of the outside codec to the last request. On
    /// failure the session has failed and gives no output.
    pub fn supply(&mut self, reply: Result<Vec<u8>, Vec<u8>>) -> (r: Result<(), PipelineError>)
        requires
            old(self)@.wf(),
        ensures
            final(self)@.wf(),
            match r {
                Ok(()) => old(self)@.supplied(
                    match reply {
                        Ok(b) => Ok(b@),
                        Err(m) => Err(m@),
                    },
                ) == Ok::<TextureSessionView, ErrorView>(final(self)@),
                Err(e) => e@.stage == Stage::Transform(0) && old(self)@.supplied(
                    match reply {
                        Ok(b) => Ok(b@),
                        Err(m) => Err(m@),
                    },
                ) == Err::<TextureSessionView, ErrorView>(e@.error) && final(self)@.failed,
            },
    {
        if self.failed || self.pending.len() == 0 {
            self.failed = true;
            return Err(PipelineError { stage: Stage::Transform(0), error: Error::Unfinished });
        }
        let bytes = match reply {
            Ok(bytes) => bytes,
            Err(message) => {
                self.failed = true;
                return Err(PipelineError { stage: Stage::Transform(0), error: Error::Codec(message) });
            },
        };
        let image = self.pending[0];
        assert(self@.pending[0] == image);
        let mime = mime_of(self.config.format);
        let ghost before = self@;
        match replace_image(&mut self.document, image, &bytes, &mime) {
            Ok(()) => {},
            Err(error) => {
                self.failed = true;
                return Err(PipelineError { stage: Stage::Transform(0), error });
            },
        }
        let mut rest: Vec<usize> = Vec::new();
        let mut k: usize = 1;
        while k < self.pending.len()
            invariant
                1 <= k <= self.pending.len(),
                rest@ == self.pending@.subrange(1, k as int),
            decreases self.pending.len() - k,
        {
            rest.push(self.pending[k]);
            k += 1;
        }
        self.pending = rest;
        proof {
            assert forall|j: int| 0 <= j < self@.pending.len() implies (#[trigger] self@.pending[j])
                < self@.document.root.images.len() && self@.document.root.images[self@.pending[j] as int].view is Some by {
                assert(self@.pending[j] == before.pending[j + 1]);
            }
        }
        Ok(())
    }

    /// Gives the output of the session.
    pub fn finish(&self) -> (r: Result<Vec<u8>, PipelineError>)
        ensures
            match r {
                Ok(bytes) => self@.finished() == Ok::<Seq<u8>, PipelineErrorView>(bytes@),
                Err(e) => self@.finished() == Err::<Seq<u8>, PipelineErrorView>(e@),
            },
    {
        if self.failed || self.pending.len() > 0 {
            return Err(PipelineError { stage: Stage::Transform(0), error: Error::Unfinished });
        }
        match encode(&self.document) {
            Ok(bytes) => Ok(bytes),
            Err(error) => Err(PipelineError { stage: Stage::Encode, error }),
        }
    }
}

/// The session after the outside codec has answered the requests from
/// place `k` on with the bytes `replies`, one after the other.
pub open spec fn after_replies(s: TextureSessionView, replies: Seq<Seq<u8>>, k: int) -> Result<
    TextureSessionView,
    ErrorView,
>
    decreases replies.len() - k,
{
    if k < 0 || k >= replies.len() {
        Ok(s)
    } else {
        match s.supplied(Ok(replies[k])) {
            Ok(next) => after_replies(next, replies, k + 1),
            Err(e) => Err(e),
        }
    }
}

/// Taking in an answer keeps the session well formed, changes no texture
/// and no material, and changes no image but the one that was asked for.
pub proof fn lemma_supplied(s: TextureSessionView, bytes: Seq<u8>)
    requires
        s.wf(),
        s.supplied(Ok(bytes)) is Ok,
    ensures
        s.supplied(Ok(bytes))->Ok_0.wf(),
        s.supplied(Ok(bytes))->Ok_0.document.root.textures == s.document.root.textures,
        s.supplied(Ok(bytes))->Ok_0.document.root.materials == s.document.root.materials,
        s.supplied(Ok(bytes))->Ok_0.document.root.images.len() == s.document.root.images.len(),
        forall|i: int|
            0 <= i < s.document.root.images.len() && i != s.pending[0] ==> (#[trigger] s.supplied(
                Ok(bytes),
            )->Ok_0.document.root.images[i]) == s.document.root.images[i] && image_bytes(
                s.supplied(Ok(bytes))->Ok_0.document,
                i,
            ) == image_bytes(s.document, i),
{
    let image = s.pending[0] as int;
    let mime = mime_spec(s.config.format);
    crate::images::lemma_image_replaced_wf(s.document, image, bytes, mime);
    crate::images::lemma_image_replaced_keeps(s.document, image, bytes, mime);
    let next = s.supplied(Ok(bytes))->Ok_0;
    assert forall|j: int| 0 <= j < next.pending.len() implies (#[trigger] next.pending[j])
        < next.document.root.images.len() && next.document.root.images[next.pending[j] as int].view is Some by {
        assert(next.pending[j] == s.pending[j + 1]);
    }
}

/// Texture compression preserves identity: whatever the outside codec
/// answers, every texture and every material stays as it is, and an image
/// that is not among those to compress keeps its bytes.
pub proof fn lemma_compression_preserves(s: TextureSessionView, replies: Seq<Seq<u8>>, k: int, i: int)
    requires
        s.wf(),
        0 <= k <= replies.len(),
        after_replies(s, replies, k) is Ok,
        0 <= i < s.document.root.images.len(),
        forall|j: int| 0 <= j < s.pending.len() ==> #[trigger] s.pending[j] != i,
    ensures
        after_replies(s, replies, k)->Ok_0.document.root.textures == s.document.root.textures,
        after_replies(s, replies, k)->Ok_0.document.root.materials == s.document.root.materials,
        after_replies(s, replies, k)->Ok_0.document.root.images.len() == s.document.root.images.len(),
        after_replies(s, replies, k)->Ok_0.document.root.images[i] == s.document.root.images[i],
        image_bytes(after_replies(s, replies, k)->Ok_0.document, i) == image_bytes(s.document, i),
    decreases replies.len() - k,
{
    if k < replies.len() {
        let next = s.supplied(Ok(replies[k]))->Ok_0;
        lemma_supplied(s, replies[k]);
        assert(s.pending[0] != i);
        assert forall|j: int| 0 <= j < next.pending.len() implies #[trigger] next.pending[j] != i by {
            assert(next.pending[j] == s.pending[j + 1]);
        }
        lemma_compression_preserves(next, replies, k + 1, i);
    }
}

/// The session that compressing the textures of a container starts with:
/// its document, and as the images to compress those that `config` does
/// not leave alone.
pub open spec fn session_spec(input: Seq<u8>, registry: Seq<EntryView>, config: CompressConfig) -> Result<
    TextureSessionView,
    PipelineErrorView,
> {
    match decode_with(input, registry) {
        Err(e) => Err(PipelineErrorView { stage: Stage::Decode, error: e }),
        Ok(decoded) => Ok(
            TextureSessionView {
                document: decoded.document,
                config,
                pending: jobs(
                    decoded.document.root,
                    config.exclude,
                    decoded.document.root.images.len() as int,
                ),
                failed: false,
            },
        ),
    }
}

/// Starts a session of texture compression on the bytes of a container.
pub fn begin(input: &Vec<u8>, registry: &Registry, config: CompressConfig) -> (r: Result<
    TextureSession,
    PipelineError,
>)
    ensures
        match r {
            Ok(s) => session_spec(input@, registry@, config) == Ok::<
                TextureSessionView,
                PipelineErrorView,
            >(s@) && s@.wf(),
            Err(e) => session_spec(input@, registry@, config) == Err::<
                TextureSessionView,
                PipelineErrorView,
            >(e@),
        },
{
    let decoded = match decode(input, registry) {
        Ok(d) => d,
        Err(error) => {
            return Err(PipelineError { stage: Stage::Decode, error });
        },
    };
    Ok(TextureSession::start(decoded.document, config))
}

} // verus!
