//! The GLB container: a twelve-byte header, a JSON chunk and an optional
//! binary chunk, each chunk padded to a multiple of four bytes.
use vstd::prelude::*;
use crate::bytes::{copy_range, le32, le32_bytes, lemma_le32_between, lemma_le32_len, push_all, push_le32, read_le32};
use crate::error::{Error, Malformed};

verus! {

/// The bytes `glTF` read as a little-endian word.
pub const MAGIC: u32 = 0x4654_6C67;

/// The container version this codec reads and writes.
pub const VERSION: u32 = 2;

/// The type word of a JSON chunk (`JSON`).
pub const JSON_CHUNK: u32 = 0x4E4F_534A;

/// The type word of a binary chunk (`BIN` and a zero byte).
pub const BIN_CHUNK: u32 = 0x004E_4942;

/// The payloads of a container.
#[derive(Debug, PartialEq, Eq)]
pub struct Chunks {
    pub json: Vec<u8>,
    pub bin: Option<Vec<u8>>,
}

/// The mathematical value of [`Chunks`].
pub struct ChunksView {
    pub json: Seq<u8>,
    pub bin: Option<Seq<u8>>,
}

impl View for Chunks {
    type V = ChunksView;

    open spec fn view(&self) -> ChunksView {
        ChunksView {
            json: self.json@,
            bin: match self.bin {
                Some(b) => Some(b@),
                None => None,
            },
        }
    }
}


/// The bytes of an optional payload.
pub open spec fn payload_view(bin: Option<Vec<u8>>) -> Option<Seq<u8>> {
    match bin {
        Some(b) => Some(b@),
        None => None,
    }
}

/// What a container holds, or why it is not one.
pub open spec fn split_spec(s: Seq<u8>) -> Result<ChunksView, Malformed> {
    if s.len() < 12 {
        Err(Malformed::Truncated)
    } else if le32(s, 0) != MAGIC {
        Err(Malformed::BadMagic)
    } else if le32(s, 4) != VERSION {
        Err(Malformed::BadVersion)
    } else if le32(s, 8) > s.len() {
        Err(Malformed::Truncated)
    } else if le32(s, 8) < s.len() {
        Err(Malformed::LengthMismatch)
    } else if s.len() < 20 {
        Err(Malformed::Truncated)
    } else if le32(s, 16) != JSON_CHUNK {
        Err(Malformed::MissingJson)
    } else if 20 + le32(s, 12) > s.len() {
        Err(Malformed::Truncated)
    } else {
        let p: int = 20 + le32(s, 12) as int;
        let json = s.subrange(20, p);
        if s.len() == p {
            Ok(ChunksView { json, bin: None })
        } else if s.len() - p < 8 {
            Err(Malformed::Truncated)
        } else if le32(s, p + 4) != BIN_CHUNK {
            Ok(ChunksView { json, bin: None })
        } else if p + 8 + le32(s, p) > s.len() {
            Err(Malformed::Truncated)
        } else {
            Ok(ChunksView { json, bin: Some(s.subrange(p + 8, p + 8 + le32(s, p))) })
        }
    }
}

/// Takes a container apart.
pub fn split(s: &Vec<u8>) -> (r: Result<Chunks, Malformed>)
    ensures
        match r {
            Ok(c) => split_spec(s@) == Ok::<ChunksView, Malformed>(c@),
            Err(e) => split_spec(s@) == Err::<ChunksView, Malformed>(e),
        },
{
    let n = s.len();
    if n < 12 {
        return Err(Malformed::Truncated);
    }
    if read_le32(s, 0) != MAGIC {
        return Err(Malformed::BadMagic);
    }
    if read_le32(s, 4) != VERSION {
        return Err(Malformed::BadVersion);
    }
    let total = read_le32(s, 8) as u64;
    if total > n as u64 {
        return Err(Malformed::Truncated);
    }
    if total < n as u64 {
        return Err(Malformed::LengthMismatch);
    }
    if n < 20 {
        return Err(Malformed::Truncated);
    }
    if read_le32(s, 16) != JSON_CHUNK {
        return Err(Malformed::MissingJson);
    }
    let json_len = read_le32(s, 12) as u64;
    if json_len > (n - 20) as u64 {
        return Err(Malformed::Truncated);
    }
    let p: usize = 20 + json_len as usize;
    let json = copy_range(s, 20, p);
    if n == p {
        return Ok(Chunks { json, bin: None });
    }
    if n - p < 8 {
        return Err(Malformed::Truncated);
    }
    if read_le32(s, p + 4) != BIN_CHUNK {
        return Ok(Chunks { json, bin: None });
    }
    let bin_len = read_le32(s, p) as u64;
    if bin_len > (n - p - 8) as u64 {
        return Err(Malformed::Truncated);
    }
    let bin = copy_range(s, p + 8, p + 8 + bin_len as usize);
    Ok(Chunks { json, bin: Some(bin) })
}

/// The number of bytes that pad `n` bytes to a multiple of four.
pub open spec fn pad_len(n: nat) -> nat {
    ((4 - n % 4) % 4) as nat
}

/// `s` followed by as many `fill` bytes as pad it to a multiple of four.
pub open spec fn padded(s: Seq<u8>, fill: u8) -> Seq<u8> {
    s + Seq::new(pad_len(s.len()), |i: int| fill)
}

/// A chunk: the length of its data, its type, its data.
pub open spec fn chunk_spec(kind: u32, data: Seq<u8>) -> Seq<u8> {
    le32_bytes(data.len()) + le32_bytes(kind as nat) + data
}

/// The chunks of a container: the JSON text padded with spaces, then the
/// binary payload, if there is one, padded with zeros.
pub open spec fn body_spec(json: Seq<u8>, bin: Option<Seq<u8>>) -> Seq<u8> {
    chunk_spec(JSON_CHUNK, padded(json, 0x20)) + match bin {
        Some(b) => chunk_spec(BIN_CHUNK, padded(b, 0)),
        None => Seq::empty(),
    }
}

/// The container that holds `json` and `bin`.
pub open spec fn join_spec(json: Seq<u8>, bin: Option<Seq<u8>>) -> Seq<u8> {
    let body = body_spec(json, bin);
    le32_bytes(MAGIC as nat) + le32_bytes(VERSION as nat) + le32_bytes(12 + body.len()) + body
}

/// Whether the container that holds `json` and `bin` has a length that its
/// header can state.
pub open spec fn fits(json: Seq<u8>, bin: Option<Seq<u8>>) -> bool {
    join_spec(json, bin).len() <= u32::MAX
}

/// Appends `data` and its padding of `fill` bytes.
fn push_padded(out: &mut Vec<u8>, data: &Vec<u8>, fill: u8)
    ensures
        final(out)@ == old(out)@ + padded(data@, fill),
{
    push_all(out, data);
    let ghost mid = out@;
    let pad: usize = (4 - data.len() % 4) % 4;
    let mut i: usize = 0;
    while i < pad
        invariant
            i <= pad,
            pad == pad_len(data@.len()),
            out@ == mid + Seq::new(i as nat, |k: int| fill),
        decreases pad - i,
    {
        out.push(fill);
        i += 1;
        assert(out@ == mid + Seq::new(i as nat, |k: int| fill));
    }
    assert(out@ == old(out)@ + padded(data@, fill));
}

/// The length of `n` bytes after padding, if it still fits 32 bits.
fn padded_len(n: usize) -> (r: Option<u32>)
    ensures
        match r {
            Some(m) => m == n + pad_len(n as nat),
            None => n + pad_len(n as nat) > u32::MAX,
        },
{
    if n as u64 > 0xFFFF_FFFC {
        return None;
    }
    let pad: usize = (4 - n % 4) % 4;
    Some((n as u64 + pad as u64) as u32)
}

/// Builds the container that holds `json` and `bin`. It fails exactly when
/// the container would be longer than its header can state.
pub fn join(json: &Vec<u8>, bin: &Option<Vec<u8>>) -> (r: Result<Vec<u8>, Error>)
    ensures
        match r {
            Ok(out) => fits(json@, payload_view(*bin)) && out@ == join_spec(json@, payload_view(*bin)),
            Err(e) => !fits(json@, payload_view(*bin)) && e == Error::EncodingOverflow,
        },
{
    let ghost b_view = payload_view(*bin);
    let ghost body = body_spec(json@, b_view);
    proof {
        lemma_le32_len(MAGIC as nat);
        lemma_le32_len(VERSION as nat);
        lemma_le32_len(12 + body.len());
        lemma_le32_len(padded(json@, 0x20).len());
        lemma_le32_len(JSON_CHUNK as nat);
        lemma_le32_len(BIN_CHUNK as nat);
        if let Some(b) = b_view {
            lemma_le32_len(padded(b, 0).len());
        }
    }
    let json_len = match padded_len(json.len()) {
        Some(n) => n,
        None => {
            return Err(Error::EncodingOverflow);
        },
    };
    let mut total: u64 = 20 + json_len as u64;
    let mut bin_len: u32 = 0;
    match bin {
        Some(b) => {
            match padded_len(b.len()) {
                Some(n) => {
                    bin_len = n;
                    total = total + 8 + n as u64;
                },
                None => {
                    return Err(Error::EncodingOverflow);
                },
            }
        },
        None => {},
    }
    assert(total == 12 + body.len());
    if total > 0xFFFF_FFFF {
        return Err(Error::EncodingOverflow);
    }
    let mut out: Vec<u8> = Vec::new();
    push_le32(&mut out, MAGIC);
    push_le32(&mut out, VERSION);
    push_le32(&mut out, total as u32);
    push_le32(&mut out, json_len);
    push_le32(&mut out, JSON_CHUNK);
    push_padded(&mut out, json, 0x20);
    match bin {
        Some(b) => {
            push_le32(&mut out, bin_len);
            push_le32(&mut out, BIN_CHUNK);
            push_padded(&mut out, b, 0);
        },
        None => {},
    }
    assert(out@ == join_spec(json@, b_view));
    Ok(out)
}

/// Taking apart a container that was built gives back the payloads it was
/// built from, with their padding.
pub proof fn lemma_split_join(json: Seq<u8>, bin: Option<Seq<u8>>)
    requires
        fits(json, bin),
    ensures
        split_spec(join_spec(json, bin)) == Ok::<ChunksView, Malformed>(
            ChunksView {
                json: padded(json, 0x20),
                bin: match bin {
                    Some(b) => Some(padded(b, 0)),
                    None => None,
                },
            },
        ),
{
    let s = join_spec(json, bin);
    let j = padded(json, 0x20);
    let body = body_spec(json, bin);
    let w0 = le32_bytes(MAGIC as nat);
    let w1 = le32_bytes(VERSION as nat);
    let w2 = le32_bytes(12 + body.len());
    let w3 = le32_bytes(j.len());
    let w4 = le32_bytes(JSON_CHUNK as nat);
    lemma_le32_len(MAGIC as nat);
    lemma_le32_len(VERSION as nat);
    lemma_le32_len(12 + body.len());
    lemma_le32_len(j.len());
    lemma_le32_len(JSON_CHUNK as nat);
    let e = Seq::<u8>::empty();
    assert(s == e + w0 + (w1 + w2 + body));
    lemma_le32_between(e, MAGIC as nat, w1 + w2 + body);
    assert(s == w0 + w1 + (w2 + body));
    lemma_le32_between(w0, VERSION as nat, w2 + body);
    assert(s == (w0 + w1) + w2 + body);
    lemma_le32_between(w0 + w1, 12 + body.len(), body);
    let p: int = 20 + j.len() as int;
    match bin {
        Some(b) => {
            let q = padded(b, 0);
            let w5 = le32_bytes(q.len());
            let w6 = le32_bytes(BIN_CHUNK as nat);
            lemma_le32_len(q.len());
            lemma_le32_len(BIN_CHUNK as nat);
            assert(body == w3 + w4 + j + (w5 + w6 + q));
            assert(s == (w0 + w1 + w2) + w3 + (w4 + j + (w5 + w6 + q)));
            lemma_le32_between(w0 + w1 + w2, j.len(), w4 + j + (w5 + w6 + q));
            assert(s == (w0 + w1 + w2 + w3) + w4 + (j + (w5 + w6 + q)));
            lemma_le32_between(w0 + w1 + w2 + w3, JSON_CHUNK as nat, j + (w5 + w6 + q));
            assert(s.subrange(20, p) == j);
            assert(s == (w0 + w1 + w2 + w3 + w4 + j) + w5 + (w6 + q));
            lemma_le32_between(w0 + w1 + w2 + w3 + w4 + j, q.len(), w6 + q);
            assert(s == (w0 + w1 + w2 + w3 + w4 + j + w5) + w6 + q);
            lemma_le32_between(w0 + w1 + w2 + w3 + w4 + j + w5, BIN_CHUNK as nat, q);
            assert(s.subrange(p + 8, p + 8 + q.len()) == q);
        },
        None => {
            assert(body == w3 + w4 + j);
            assert(s == (w0 + w1 + w2) + w3 + (w4 + j));
            lemma_le32_between(w0 + w1 + w2, j.len(), w4 + j);
            assert(s == (w0 + w1 + w2 + w3) + w4 + j);
            lemma_le32_between(w0 + w1 + w2 + w3, JSON_CHUNK as nat, j);
            assert(s.subrange(20, p) == j);
        },
    }
}

} // verus!
