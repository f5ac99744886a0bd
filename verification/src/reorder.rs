//! Reordering: letting an outside mesh codec rearrange the bytes of the
//! vertex and index data for locality. The codec answers with bytes for a
//! buffer view; they take the place of the bytes the view covered. The
//! scene description is never touched: what changes is the layout of
//! bytes, and nothing else.
use vstd::prelude::*;
use crate::bytes::copy_range;
use crate::document::{Document, DocumentView};
use crate::entities::{opt_view, Root, RootView};
use crate::error::{Error, ErrorView};
use crate::fields::texts_view;
use crate::images::view_bytes;
use crate::pipeline::{PipelineError, PipelineErrorView, Stage};
use crate::references::{mark_one, no_marks};

verus! {

/// Whether accessor `a` reads buffer view `v`.
pub open spec fn accessor_reads(root: RootView, a: int, v: usize) -> bool {
    root.accessors[a].view == Some(v)
}

/// Whether one of the first `n` accessors reads buffer view `v`.
pub open spec fn accessors_read(root: RootView, n: int, v: usize) -> bool {
    exists|a: int| 0 <= a < n && accessor_reads(root, a, v)
}

/// Whether image `i` has its bytes in buffer view `v`.
pub open spec fn image_reads(root: RootView, i: int, v: usize) -> bool {
    root.images[i].view == Some(v)
}

/// Whether one of the first `n` images has its bytes in buffer view `v`.
pub open spec fn images_read(root: RootView, n: int, v: usize) -> bool {
    exists|i: int| 0 <= i < n && image_reads(root, i, v)
}

/// Whether buffer view `v` holds vertex or index data and nothing else: an
/// accessor reads it, and no image has its bytes there.
pub open spec fn is_geometry(root: RootView, v: int) -> bool {
    &&& 0 <= v < root.views.len()
    &&& accessors_read(root, root.accessors.len() as int, v as usize)
    &&& !images_read(root, root.images.len() as int, v as usize)
}

/// The buffer views among the first `n` that hold vertex or index data, in
/// their order.
pub open spec fn geometry_views(root: RootView, n: int) -> Seq<usize>
    decreases n,
{
    if n <= 0 || n > root.views.len() {
        Seq::empty()
    } else if is_geometry(root, n - 1) {
        geometry_views(root, n - 1).push((n - 1) as usize)
    } else {
        geometry_views(root, n - 1)
    }
}

/// The bytes `data` with `bytes` from `at` on, in place of what was
/// there.
pub open spec fn overwritten(data: Seq<u8>, at: int, bytes: Seq<u8>) -> Seq<u8> {
    Seq::new(
        data.len(),
        |i: int|
            if at <= i < at + bytes.len() {
                bytes[i - at]
            } else {
                data[i]
            },
    )
}

/// The document with `bytes` in place of the bytes that buffer view `v`
/// covers. The scene description stays as it is.
pub open spec fn view_rewritten(doc: DocumentView, v: int, bytes: Seq<u8>) -> DocumentView {
    let view = doc.root.views[v];
    DocumentView {
        root: doc.root,
        data: doc.data.update(
            view.buffer as int,
            overwritten(doc.data[view.buffer as int], view.offset as int, bytes),
        ),
    }
}

proof fn lemma_accessors_read_step(root: RootView, n: int, v: usize)
    requires
        0 <= n,
    ensures
        accessors_read(root, n + 1, v) == (accessors_read(root, n, v) || accessor_reads(root, n, v)),
{
    if accessors_read(root, n, v) {
        let w = choose|w: int| 0 <= w < n && #[trigger] accessor_reads(root, w, v);
        assert(0 <= w < n + 1 && accessor_reads(root, w, v));
    }
    if accessor_reads(root, n, v) {
        assert(0 <= n < n + 1 && accessor_reads(root, n, v));
    }
    if accessors_read(root, n + 1, v) {
        let w = choose|w: int| 0 <= w < n + 1 && #[trigger] accessor_reads(root, w, v);
        if w < n {
            assert(0 <= w < n && accessor_reads(root, w, v));
        }
    }
}

proof fn lemma_images_read_step(root: RootView, n: int, v: usize)
    requires
        0 <= n,
    ensures
        images_read(root, n + 1, v) == (images_read(root, n, v) || image_reads(root, n, v)),
{
    if images_read(root, n, v) {
        let w = choose|w: int| 0 <= w < n && #[trigger] image_reads(root, w, v);
        assert(0 <= w < n + 1 && image_reads(root, w, v));
    }
    if image_reads(root, n, v) {
        assert(0 <= n < n + 1 && image_reads(root, n, v));
    }
    if images_read(root, n + 1, v) {
        let w = choose|w: int| 0 <= w < n + 1 && #[trigger] image_reads(root, w, v);
        if w < n {
            assert(0 <= w < n && image_reads(root, w, v));
        }
    }
}

/// The buffer views that hold vertex or index data are buffer views.
proof fn lemma_geometry_views(root: RootView, n: int)
    requires
        0 <= n <= root.views.len(),
        root.views.len() <= usize::MAX,
    ensures
        forall|k: int|
            0 <= k < geometry_views(root, n).len() ==> (#[trigger] geometry_views(root, n)[k])
                < root.views.len(),
    decreases n,
{
    if n > 0 {
        lemma_geometry_views(root, n - 1);
        let all = geometry_views(root, n);
        let before = geometry_views(root, n - 1);
        assert forall|k: int| 0 <= k < all.len() implies (#[trigger] all[k]) < root.views.len() by {
            if k < before.len() {
                assert(all[k] == before[k]);
            }
        }
    }
}

/// Rewriting the bytes of a buffer view with as many bytes keeps the
/// document well formed, and changes no byte outside the view.
pub proof fn lemma_view_rewritten(doc: DocumentView, v: int, bytes: Seq<u8>)
    requires
        doc.wf(),
        0 <= v < doc.root.views.len(),
        bytes.len() == doc.root.views[v].length,
    ensures
        view_rewritten(doc, v, bytes).wf(),
        view_rewritten(doc, v, bytes).root == doc.root,
        view_bytes(view_rewritten(doc, v, bytes), v) == bytes,
        forall|b: int, i: int|
            0 <= b < doc.data.len() && 0 <= i < doc.data[b].len() && !(b == doc.root.views[v].buffer
                && doc.root.views[v].offset <= i < doc.root.views[v].offset + doc.root.views[v].length)
                ==> #[trigger] view_rewritten(doc, v, bytes).data[b][i] == doc.data[b][i],
{
    reveal(RootView::valid);
    assert(doc.root.view_valid(doc.root.views[v]));
    let after = view_rewritten(doc, v, bytes);
    assert(view_bytes(after, v) =~= bytes);
}

impl Root {
    /// Finds the buffer views that hold vertex or index data.
    pub fn find_geometry(&self) -> (r: Vec<usize>)
        requires
            self@.valid(),
        ensures
            r@ == geometry_views(self@, self@.views.len() as int),
    {
        let n = self.views.len();
        let mut read = no_marks(n);
        let mut a: usize = 0;
        while a < self.accessors.len()
            invariant
                a <= self.accessors.len(),
                self@.valid(),
                read.len() == n,
                n == self.views.len(),
                forall|v: int| 0 <= v < n ==> #[trigger] read@[v] == accessors_read(self@, a as int, v as usize),
            decreases self.accessors.len() - a,
        {
            proof {
                reveal(RootView::valid);
            }
            assert(self@.accessors[a as int] == self.accessors@[a as int]@);
            assert(self@.accessor_valid(self@.accessors[a as int]));
            mark_one(&mut read, self.accessors[a].view);
            proof {
                assert forall|v: int| 0 <= v < n implies #[trigger] read@[v] == accessors_read(
                    self@,
                    a + 1,
                    v as usize,
                ) by {
                    lemma_accessors_read_step(self@, a as int, v as usize);
                }
            }
            a += 1;
        }
        let mut shown = no_marks(n);
        let mut i: usize = 0;
        while i < self.images.len()
            invariant
                i <= self.images.len(),
                self@.valid(),
                shown.len() == n,
                n == self.views.len(),
                forall|v: int| 0 <= v < n ==> #[trigger] shown@[v] == images_read(self@, i as int, v as usize),
            decreases self.images.len() - i,
        {
            proof {
                reveal(RootView::valid);
            }
            assert(self@.images[i as int] == self.images@[i as int]@);
            assert(self@.image_valid(self@.images[i as int]));
            mark_one(&mut shown, self.images[i].view);
            proof {
                assert forall|v: int| 0 <= v < n implies #[trigger] shown@[v] == images_read(
                    self@,
                    i + 1,
                    v as usize,
                ) by {
                    lemma_images_read_step(self@, i as int, v as usize);
                }
            }
            i += 1;
        }
        let mut out: Vec<usize> = Vec::new();
        let mut v: usize = 0;
        while v < n
            invariant
                v <= n,
                n == self.views.len(),
                read.len() == n,
                shown.len() == n,
                forall|k: int|
                    0 <= k < n ==> #[trigger] read@[k] == accessors_read(
                        self@,
                        self@.accessors.len() as int,
                        k as usize,
                    ),
                forall|k: int|
                    0 <= k < n ==> #[trigger] shown@[k] == images_read(
                        self@,
                        self@.images.len() as int,
                        k as usize,
                    ),
                out@ == geometry_views(self@, v as int),
            decreases n - v,
        {
            if read[v] && !shown[v] {
                out.push(v);
            }
            v += 1;
        }
        out
    }
}

/// What the outside mesh codec is asked for: to rearrange the bytes of a
/// buffer view.
#[derive(Debug, PartialEq, Eq)]
pub struct ViewJob {
    /// The buffer view.
    pub view: usize,
    /// Its bytes.
    pub bytes: Vec<u8>,
    /// The distance between elements, if the view states one.
    pub stride: Option<usize>,
}

/// The mathematical value of a [`ViewJob`].
pub struct ViewJobView {
    pub view: usize,
    pub bytes: Seq<u8>,
    pub stride: Option<usize>,
}

impl View for ViewJob {
    type V = ViewJobView;

    open spec fn view(&self) -> ViewJobView {
        ViewJobView { view: self.view, bytes: self.bytes@, stride: self.stride }
    }
}

/// A session of reordering: the document, the buffer views whose bytes
/// are still to be rearranged, and whether the session has failed.
#[derive(Debug, PartialEq, Eq)]
pub struct ReorderSession {
    pub document: Document,
    pub pending: Vec<usize>,
    pub failed: bool,
}

/// The mathematical value of a [`ReorderSession`].
pub struct ReorderSessionView {
    pub document: DocumentView,
    pub pending: Seq<usize>,
    pub failed: bool,
}

impl View for ReorderSession {
    type V = ReorderSessionView;

    open spec fn view(&self) -> ReorderSessionView {
        ReorderSessionView { document: self.document@, pending: self.pending@, failed: self.failed }
    }
}

impl ReorderSessionView {
    /// Whether the session is well formed: its document is, and what is
    /// still to be rearranged are buffer views of it.
    pub open spec fn wf(self) -> bool {
        &&& self.document.wf()
        &&& forall|k: int|
            0 <= k < self.pending.len() ==> (#[trigger] self.pending[k]) < self.document.root.views.len()
    }

    /// What the outside codec is to do next: to rearrange the bytes of the
    /// first buffer view that is still to be rearranged, unless the
    /// session has failed or no view is left.
    pub open spec fn request(self) -> Option<ViewJobView> {
        if self.failed || self.pending.len() == 0 {
            None
        } else {
            let v = self.pending[0];
            Some(
                ViewJobView {
                    view: v,
                    bytes: view_bytes(self.document, v as int),
                    stride: self.document.root.views[v as int].stride,
                },
            )
        }
    }

    /// The session after the outside codec has answered. As many bytes as
    /// the view covers take the place of its bytes. A failure of the
    /// codec, an answer of another length, which is a failure of the
    /// codec without a message, and an answer that was not asked for fail
    /// the session.
    pub open spec fn supplied(self, reply: Result<Seq<u8>, Seq<u8>>) -> Result<
        ReorderSessionView,
        ErrorView,
    > {
        if self.failed || self.pending.len() == 0 {
            Err(ErrorView::Unfinished)
        } else {
            match reply {
                Err(message) => Err(ErrorView::Codec(message)),
                Ok(bytes) => if bytes.len() == self.document.root.views[self.pending[0] as int].length {
                    Ok(
                        ReorderSessionView {
                            document: view_rewritten(self.document, self.pending[0] as int, bytes),
                            pending: self.pending.subrange(1, self.pending.len() as int),
                            failed: false,
                        },
                    )
                } else {
                    Err(ErrorView::Codec(Seq::empty()))
                },
            }
        }
    }
}

/// Reordering changes the layout of bytes only: taking in an answer keeps
/// the session well formed and leaves the scene description as it is.
pub proof fn lemma_reorder_supplied(s: ReorderSessionView, bytes: Seq<u8>)
    requires
        s.wf(),
        s.supplied(Ok(bytes)) is Ok,
    ensures
        s.supplied(Ok(bytes))->Ok_0.wf(),
        s.supplied(Ok(bytes))->Ok_0.document.root == s.document.root,
        s.supplied(Ok(bytes))->Ok_0.document.data.len() == s.document.data.len(),
        forall|b: int|
            0 <= b < s.document.data.len() ==> (#[trigger] s.supplied(Ok(bytes))->Ok_0.document.data[b]).len()
                == s.document.data[b].len(),
{
    lemma_view_rewritten(s.document, s.pending[0] as int, bytes);
    let next = s.supplied(Ok(bytes))->Ok_0;
    assert forall|j: int| 0 <= j < next.pending.len() implies (#[trigger] next.pending[j])
        < next.document.root.views.len() by {
        assert(next.pending[j] == s.pending[j + 1]);
    }
}

impl ReorderSession {
    /// Starts a session of reordering on a document: what is to be
    /// rearranged are its buffer views that hold vertex or index data.
    pub fn start(document: Document) -> (r: ReorderSession)
        requires
            document@.wf(),
        ensures
            r@.wf(),
            r@.document == document@,
            r@.pending == geometry_views(document@.root, document@.root.views.len() as int),
            !r@.failed,
    {
        let pending = document.root.find_geometry();
        proof {
            assert(document@.root.views.len() == document.root.views.len());
            lemma_geometry_views(document@.root, document@.root.views.len() as int);
        }
        ReorderSession { document, pending, failed: false }
    }

    /// What the outside codec is to do next.
    pub fn request(&self) -> (r: Option<ViewJob>)
        requires
            self@.wf(),
        ensures
            opt_view(r) == self@.request(),
    {
        if self.failed || self.pending.len() == 0 {
            return None;
        }
        proof {
            reveal(RootView::valid);
        }
        let v = self.pending[0];
        assert(self@.pending[0] == v);
        let doc = &self.document;
        assert(doc@.root.views[v as int] == doc.root.views@[v as int]@);
        assert(doc@.root.view_valid(doc@.root.views[v as int]));
        let view = &doc.root.views[v];
        assert(doc@.root.buffers[view.buffer as int] == doc.root.buffers@[view.buffer as int]@);
        assert(doc@.data[view.buffer as int] == doc.data@[view.buffer as int]@);
        let bytes = copy_range(&doc.data[view.buffer], view.offset, view.offset + view.length);
        Some(ViewJob { view: v, bytes, stride: view.stride })
    }

    /// Takes in the answer of the outside codec to the last request. On
    /// failure the session has failed.
    pub fn supply(&mut self, reply: Result<Vec<u8>, Vec<u8>>) -> (r: Result<(), PipelineError>)
        requires
            old(self)@.wf(),
        ensures
            final(self)@.wf(),
            match r {
                Ok(()) => old(self)@.supplied(
                    match reply {
                        Ok(b) => Ok(b@),
                        Err(m) => Err(m@),
                    },
                ) == Ok::<ReorderSessionView, ErrorView>(final(self)@),
                Err(e) => e@.stage == Stage::Transform(0) && old(self)@.supplied(
                    match reply {
                        Ok(b) => Ok(b@),
                        Err(m) => Err(m@),
                    },
                ) == Err::<ReorderSessionView, ErrorView>(e@.error) && final(self)@.failed
                    && final(self)@.document == old(self)@.document,
            },
    {
        if self.failed || self.pending.len() == 0 {
            self.failed = true;
            return Err(PipelineError { stage: Stage::Transform(0), error: Error::Unfinished });
        }
        let bytes = match reply {
            Ok(bytes) => bytes,
            Err(message) => {
                self.failed = true;
                return Err(PipelineError { stage: Stage::Transform(0), error: Error::Codec(message) });
            },
        };
        proof {
            reveal(RootView::valid);
        }
        let v = self.pending[0];
        assert(self@.pending[0] == v);
        assert(self@.document.root.views[v as int] == self.document.root.views@[v as int]@);
        assert(self@.document.root.view_valid(self@.document.root.views[v as int]));
        let buffer = self.document.root.views[v].buffer;
        let offset = self.document.root.views[v].offset;
        let length = self.document.root.views[v].length;
        if bytes.len() != length {
            self.failed = true;
            return Err(PipelineError { stage: Stage::Transform(0), error: Error::Codec(Vec::new()) });
        }
        let ghost before = self@;
        assert(before.document.root.buffers[buffer as int] == self.document.root.buffers@[buffer as int]@);
        assert(before.document.data[buffer as int] == self.document.data@[buffer as int]@);
        let old_data = &self.document.data[buffer];
        let mut data: Vec<u8> = Vec::new();
        let mut i: usize = 0;
        while i < old_data.len()
            invariant
                i <= old_data.len(),
                offset + length <= old_data.len(),
                bytes.len() == length,
                data.len() == i,
                forall|j: int|
                    0 <= j < i ==> #[trigger] data@[j] == overwritten(old_data@, offset as int, bytes@)[j],
            decreases old_data.len() - i,
        {
            if offset <= i && i - offset < length {
                data.push(bytes[i - offset]);
            } else {
                data.push(old_data[i]);
            }
            i += 1;
        }
        assert(data@ =~= overwritten(old_data@, offset as int, bytes@));
        proof {
            lemma_view_rewritten(before.document, v as int, bytes@);
        }
        self.document.data.set(buffer, data);
        let mut rest: Vec<usize> = Vec::new();
        let mut k: usize = 1;
        while k < self.pending.len()
            invariant
                1 <= k <= self.pending.len(),
                rest@ == self.pending@.subrange(1, k as int),
            decreases self.pending.len() - k,
        {
            rest.push(self.pending[k]);
            k += 1;
        }
        self.pending = rest;
        proof {
            assert(self@.document.data =~= view_rewritten(before.document, v as int, bytes@).data);
            assert forall|j: int| 0 <= j < self@.pending.len() implies (#[trigger] self@.pending[j])
                < self@.document.root.views.len() by {
                assert(self@.pending[j] == before.pending[j + 1]);
            }
        }
        Ok(())
    }

    /// Gives the document back once every buffer view was rearranged. A
    /// session that has failed, or in which views are still to be
    /// rearranged, gives nothing.
    pub fn finish(self) -> (r: Result<Document, PipelineError>)
        ensures
            match r {
                Ok(doc) => !self@.failed && self@.pending.len() == 0 && doc@ == self@.document,
                Err(e) => (self@.failed || self@.pending.len() > 0) && e@ == (PipelineErrorView {
                    stage: Stage::Transform(0),
                    error: ErrorView::Unfinished,
                }),
            },
    {
        if self.failed || self.pending.len() > 0 {
            return Err(PipelineError { stage: Stage::Transform(0), error: Error::Unfinished });
        }
        Ok(self.document)
    }
}

} // verus!
