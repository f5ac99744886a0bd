//! Replacing the bytes of an image.
use vstd::prelude::*;
use crate::bytes::push_all;
use crate::container::{pad_len, padded};
use crate::document::{Document, DocumentView};
use crate::entities::{
    views, BufferDesc, BufferDescView, BufferView, BufferViewView, Image, ImageView, RootView,
};
use crate::error::Error;
use crate::fields::texts_view;
use crate::json::{duplicate_members, members_view, Member, MemberView};
use crate::props::Kind;

verus! {

/// The number of bytes in the buffer of a document.
pub open spec fn buffer_len(doc: DocumentView) -> nat {
    if doc.data.len() == 0 {
        0
    } else {
        doc.data[0].len()
    }
}

/// Where bytes that are appended to the buffer of a document start: at
/// the next multiple of four after its end.
pub open spec fn append_at(doc: DocumentView) -> nat {
    buffer_len(doc) + pad_len(buffer_len(doc))
}

/// The bytes that a buffer view of a document covers.
pub open spec fn view_bytes(doc: DocumentView, v: int) -> Seq<u8> {
    let view = doc.root.views[v];
    doc.data[view.buffer as int].subrange(view.offset as int, view.offset + view.length)
}

/// The bytes of an image of a document that lie in its buffer.
pub open spec fn image_bytes(doc: DocumentView, image: int) -> Option<Seq<u8>> {
    match doc.root.images[image].view {
        Some(v) => Some(view_bytes(doc, v as int)),
        None => None,
    }
}

/// The document with `bytes` as the bytes of image `image`, of the media
/// type `mime`. The bytes are appended to the buffer, behind padding to a
/// multiple of four; a new buffer view covers them; the image refers to
/// that view. Every other entity, and every byte that was in the buffer,
/// stays as it is.
pub open spec fn image_replaced(doc: DocumentView, image: int, bytes: Seq<u8>, mime: Seq<u8>) -> DocumentView {
    let start = append_at(doc);
    let before = if doc.data.len() == 0 {
        Seq::<u8>::empty()
    } else {
        padded(doc.data[0], 0)
    };
    let props = if doc.root.buffers.len() == 0 {
        Seq::<MemberView>::empty()
    } else {
        doc.root.buffers[0].props
    };
    DocumentView {
        root: RootView {
            images: doc.root.images.update(
                image,
                ImageView {
                    view: Some(doc.root.views.len() as usize),
                    mime: Some(mime),
                    uri: None,
                    props: doc.root.images[image].props,
                },
            ),
            views: doc.root.views.push(
                BufferViewView {
                    buffer: 0,
                    offset: start as usize,
                    length: bytes.len() as usize,
                    stride: None,
                    props: Seq::empty(),
                },
            ),
            buffers: seq![
                BufferDescView { length: (start + bytes.len()) as usize, uri: None, props },
            ],
            ..doc.root
        },
        data: seq![before + bytes],
    }
}

/// Whether the bytes can be appended to the buffer of the document: the
/// buffer then still has a length, and the views a number, that the
/// machine can count.
pub open spec fn can_append(doc: DocumentView, bytes: Seq<u8>) -> bool {
    append_at(doc) + bytes.len() <= usize::MAX && doc.root.views.len() < usize::MAX
}

/// Replacing the bytes of an image keeps the document well formed.
pub proof fn lemma_image_replaced_wf(doc: DocumentView, image: int, bytes: Seq<u8>, mime: Seq<u8>)
    requires
        doc.wf(),
        0 <= image < doc.root.images.len(),
        can_append(doc, bytes),
    ensures
        image_replaced(doc, image, bytes, mime).wf(),
{
    reveal(RootView::ok);
    reveal(RootView::valid);
    let after = image_replaced(doc, image, bytes, mime);
    let a = after.root;
    let r = doc.root;
    assert(r.images[image].ok());
    assert forall|i: int| 0 <= i < a.images.len() implies (#[trigger] a.images[i]).ok() by {
        if i != image {
            assert(r.images[i].ok());
        }
    }
    assert forall|i: int| 0 <= i < a.views.len() implies (#[trigger] a.views[i]).ok() by {
        if i < r.views.len() {
            assert(r.views[i].ok());
        }
    }
    assert forall|i: int| 0 <= i < a.buffers.len() implies (#[trigger] a.buffers[i]).ok() by {
        if r.buffers.len() > 0 {
            assert(r.buffers[0].ok());
        }
    }
    assert forall|i: int| 0 <= i < a.scenes.len() implies a.scene_valid(#[trigger] a.scenes[i]) by {
        assert(r.scene_valid(r.scenes[i]));
    }
    assert forall|i: int| 0 <= i < a.nodes.len() implies a.node_valid(#[trigger] a.nodes[i]) by {
        assert(r.node_valid(r.nodes[i]));
    }
    assert forall|i: int| 0 <= i < a.meshes.len() implies a.mesh_valid(#[trigger] a.meshes[i]) by {
        assert(r.mesh_valid(r.meshes[i]));
        assert forall|q: int| 0 <= q < a.meshes[i].primitives.len() implies a.primitive_valid(
            #[trigger] a.meshes[i].primitives[q],
        ) by {
            assert(r.primitive_valid(r.meshes[i].primitives[q]));
        }
    }
    assert forall|i: int| 0 <= i < a.materials.len() implies a.material_valid(
        #[trigger] a.materials[i],
    ) by {
        assert(r.material_valid(r.materials[i]));
    }
    assert forall|i: int| 0 <= i < a.textures.len() implies a.texture_valid(#[trigger] a.textures[i]) by {
        assert(r.texture_valid(r.textures[i]));
    }
    assert forall|i: int| 0 <= i < a.images.len() implies a.image_valid(#[trigger] a.images[i]) by {
        if i != image {
            assert(r.image_valid(r.images[i]));
        }
    }
    assert forall|i: int| 0 <= i < a.accessors.len() implies a.accessor_valid(
        #[trigger] a.accessors[i],
    ) by {
        assert(r.accessor_valid(r.accessors[i]));
    }
    assert forall|i: int| 0 <= i < a.views.len() implies a.view_valid(#[trigger] a.views[i]) by {
        if i < r.views.len() {
            assert(r.view_valid(r.views[i]));
        }
    }
    assert forall|i: int| 0 <= i < a.buffers.len() implies a.buffer_valid(#[trigger] a.buffers[i]) by {}
}

/// Replacing the bytes of an image changes no byte that a buffer view
/// covered, and no image but the one.
pub proof fn lemma_image_replaced_keeps(doc: DocumentView, image: int, bytes: Seq<u8>, mime: Seq<u8>)
    requires
        doc.wf(),
        0 <= image < doc.root.images.len(),
        can_append(doc, bytes),
    ensures
        forall|v: int|
            0 <= v < doc.root.views.len() ==> #[trigger] view_bytes(
                image_replaced(doc, image, bytes, mime),
                v,
            ) == view_bytes(doc, v),
        forall|i: int|
            0 <= i < doc.root.images.len() && i != image ==> #[trigger] image_replaced(
                doc,
                image,
                bytes,
                mime,
            ).root.images[i] == doc.root.images[i],
        forall|i: int|
            0 <= i < doc.root.images.len() && i != image ==> #[trigger] image_bytes(
                image_replaced(doc, image, bytes, mime),
                i,
            ) == image_bytes(doc, i),
        image_bytes(image_replaced(doc, image, bytes, mime), image) == Some(bytes),
{
    reveal(RootView::valid);
    let after = image_replaced(doc, image, bytes, mime);
    assert forall|v: int| 0 <= v < doc.root.views.len() implies #[trigger] view_bytes(after, v)
        == view_bytes(doc, v) by {
        assert(doc.root.view_valid(doc.root.views[v]));
        assert(view_bytes(after, v) =~= view_bytes(doc, v));
    }
    assert forall|i: int| 0 <= i < doc.root.images.len() && i != image implies #[trigger] image_bytes(
        after,
        i,
    ) == image_bytes(doc, i) by {
        assert(doc.root.image_valid(doc.root.images[i]));
    }
    assert(view_bytes(after, doc.root.views.len() as int) =~= bytes);
}

/// Replaces the bytes of an image. It fails, and changes nothing, exactly
/// when the buffer would get longer, or the buffer views more, than the
/// machine can count.
pub fn replace_image(doc: &mut Document, image: usize, bytes: &Vec<u8>, mime: &Vec<u8>) -> (r: Result<
    (),
    Error,
>)
    requires
        old(doc)@.wf(),
        image < old(doc)@.root.images.len(),
    ensures
        final(doc)@.wf(),
        match r {
            Ok(()) => can_append(old(doc)@, bytes@) && final(doc)@ == image_replaced(
                old(doc)@,
                image as int,
                bytes@,
                mime@,
            ),
            Err(e) => !can_append(old(doc)@, bytes@) && e == Error::EncodingOverflow && final(doc)@ == old(
                doc,
            )@,
        },
{
    proof {
        reveal(RootView::valid);
    }
    let old_len: usize = if doc.data.len() == 0 {
        0
    } else {
        assert(texts_view(doc.data@)[0] == doc.data@[0]@);
        doc.data[0].len()
    };
    let pad: usize = (4 - old_len % 4) % 4;
    if old_len > usize::MAX - pad || bytes.len() > usize::MAX - pad - old_len || doc.root.views.len()
        == usize::MAX {
        return Err(Error::EncodingOverflow);
    }
    let start = old_len + pad;
    let mut data: Vec<u8> = Vec::new();
    if doc.data.len() > 0 {
        push_all(&mut data, &doc.data[0]);
        let mut i: usize = 0;
        while i < pad
            invariant
                i <= pad,
                data@ == doc.data@[0]@ + Seq::new(i as nat, |k: int| 0u8),
            decreases pad - i,
        {
            data.push(0);
            i += 1;
            assert(data@ =~= doc.data@[0]@ + Seq::new(i as nat, |k: int| 0u8));
        }
    }
    push_all(&mut data, bytes);
    let props = if doc.root.buffers.len() == 0 {
        let p: Vec<Member> = Vec::new();
        assert(members_view(p@) =~= Seq::<MemberView>::empty());
        p
    } else {
        assert(doc@.root.buffers[0] == doc.root.buffers@[0]@);
        duplicate_members(&doc.root.buffers[0].props)
    };
    let no_props: Vec<Member> = Vec::new();
    assert(members_view(no_props@) =~= Seq::<MemberView>::empty());
    assert(doc@.root.images[image as int] == doc.root.images@[image as int]@);
    let new_image = Image {
        view: Some(doc.root.views.len()),
        mime: Some(crate::bytes::clone_bytes(mime)),
        uri: None,
        props: duplicate_members(&doc.root.images[image].props),
    };
    let new_view = BufferView { buffer: 0, offset: start, length: bytes.len(), stride: None, props: no_props };
    let ghost before = doc@;
    proof {
        lemma_image_replaced_wf(before, image as int, bytes@, mime@);
    }
    let mut buffers: Vec<BufferDesc> = Vec::new();
    buffers.push(BufferDesc { length: start + bytes.len(), uri: None, props });
    let mut all: Vec<Vec<u8>> = Vec::new();
    all.push(data);
    doc.root.images.set(image, new_image);
    doc.root.views.push(new_view);
    doc.root.buffers = buffers;
    doc.data = all;
    proof {
        let want = image_replaced(before, image as int, bytes@, mime@);
        assert(doc@.root.images =~= want.root.images);
        assert(doc@.root.views =~= want.root.views);
        assert(doc@.root.buffers =~= want.root.buffers);
        assert(doc@.data =~= want.data) by {
            assert(doc@.data[0] =~= want.data[0]);
        }
    }
    Ok(())
}

} // verus!
