//! WebP (RIFF) metadata: `ICCP`, `EXIF` and `XMP ` chunks, and the `VP8X`
//! header that announces them.

use vstd::prelude::*;
use crate::bytes::{le32_at, le32_bytes, read_le32, copy_range, push_all, push_le32, lemma_le32_roundtrip};
use crate::error::ImzipError;
use super::{Metadata, MetaView, empty_meta, opt_view};

verus! {

pub open spec fn tag(a: u8, b: u8, c: u8, d: u8) -> Seq<u8> {
    seq![a, b, c, d]
}

pub open spec fn riff_tag() -> Seq<u8> { tag(0x52, 0x49, 0x46, 0x46) }
pub open spec fn webp_tag() -> Seq<u8> { tag(0x57, 0x45, 0x42, 0x50) }
pub open spec fn vp8x_tag() -> Seq<u8> { tag(0x56, 0x50, 0x38, 0x58) }
pub open spec fn iccp_tag() -> Seq<u8> { tag(0x49, 0x43, 0x43, 0x50) }
pub open spec fn exif_tag() -> Seq<u8> { tag(0x45, 0x58, 0x49, 0x46) }
pub open spec fn xmp_tag() -> Seq<u8> { tag(0x58, 0x4d, 0x50, 0x20) }

/// The chunk directory of a RIFF body, walking from offset `pos`: for each
/// chunk its fourcc, the offset of its payload and the payload's size.
/// Chunks are padded to even sizes; a chunk whose payload runs past the end
/// ends the walk.
pub open spec fn riff_walk(d: Seq<u8>, pos: int) -> Seq<(Seq<u8>, int, int)>
    decreases d.len() - pos,
{
    if pos < 0 || pos + 8 > d.len() {
        seq![]
    } else {
        let size = le32_at(d, pos + 4);
        let start = pos + 8;
        if start + size > d.len() {
            seq![]
        } else {
            let next = start + size + size % 2;
            seq![(d.subrange(pos, pos + 4), start, size)] + (if next <= d.len() {
                riff_walk(d, next)
            } else {
                seq![]
            })
        }
    }
}

/// The chunk directory of a WebP file, or `None` when the RIFF/WEBP header is missing.
pub open spec fn riff_chunks_spec(d: Seq<u8>) -> Option<Seq<(Seq<u8>, int, int)>> {
    if d.len() < 12 || d.subrange(0, 4) != riff_tag() || d.subrange(8, 12) != webp_tag() {
        None
    } else {
        Some(riff_walk(d, 12))
    }
}

/// The effect of one chunk with fourcc `f` and payload `p` on the metadata gathered so far.
pub open spec fn webp_step(m: MetaView, f: Seq<u8>, p: Seq<u8>) -> MetaView {
    if f == iccp_tag() {
        MetaView { icc: Some(p), ..m }
    } else if f == exif_tag() {
        MetaView { exif: Some(p), ..m }
    } else if f == xmp_tag() {
        MetaView { xmp: Some(p), ..m }
    } else {
        m
    }
}

/// Metadata gathered from chunks `cs` of `d`, in order; a later chunk of a kind
/// replaces an earlier one.
pub open spec fn webp_fold(d: Seq<u8>, cs: Seq<(Seq<u8>, int, int)>, m: MetaView) -> MetaView
    decreases cs.len(),
{
    if cs.len() == 0 {
        m
    } else {
        let (f, s, n) = cs[0];
        webp_fold(d, cs.drop_first(), webp_step(m, f, d.subrange(s, s + n)))
    }
}

/// The metadata that `extract_webp` finds in `d`.
pub open spec fn webp_metadata(d: Seq<u8>) -> MetaView {
    match riff_chunks_spec(d) {
        Some(cs) => webp_fold(d, cs, empty_meta()),
        None => empty_meta(),
    }
}

/// The encoding of one RIFF chunk: fourcc, little-endian size, payload, and a
/// padding byte when the payload's length is odd.
pub open spec fn riff_enc(f: Seq<u8>, p: Seq<u8>) -> Seq<u8> {
    f + le32_bytes(p.len() as int % 0x1_0000_0000) + p + (if p.len() % 2 == 1 {
        seq![0u8]
    } else {
        seq![]
    })
}

/// The OR of the first payload byte of every `VP8X` chunk of size at least 10.
pub open spec fn vp8x_flags(d: Seq<u8>, cs: Seq<(Seq<u8>, int, int)>) -> u8
    decreases cs.len(),
{
    if cs.len() == 0 {
        0
    } else {
        let (f, s, n) = cs.last();
        let rest = vp8x_flags(d, cs.drop_last());
        if f == vp8x_tag() && n >= 10 {
            rest | d[s]
        } else {
            rest
        }
    }
}

/// The canvas dimension stored in `VP8X`: `v - 1`, at least 0, at most 2^24 - 1.
pub open spec fn canvas_dim(v: u32) -> int {
    let m = if v == 0 { 0int } else { v - 1 };
    if m > 0xFF_FFFF { 0xFF_FFFF } else { m }
}

/// The 10-byte `VP8X` payload: flags, three reserved bytes, then width-1 and
/// height-1 as 24-bit little-endian values.
pub open spec fn vp8x_payload(flags: u8, w: u32, h: u32) -> Seq<u8> {
    seq![flags, 0u8, 0u8, 0u8] + le32_bytes(canvas_dim(w)).take(3) + le32_bytes(canvas_dim(h)).take(3)
}

/// The flags of the output's `VP8X` chunk.
pub open spec fn webp_out_flags(d: Seq<u8>, m: MetaView) -> u8 {
    let f0 = vp8x_flags(d, riff_walk(d, 12));
    let f1 = if m.icc is Some { f0 | 0x20 } else { f0 };
    let f2 = if m.exif is Some { f1 | 0x08 } else { f1 };
    if m.xmp is Some { f2 | 0x04 } else { f2 }
}

pub open spec fn is_meta_tag(f: Seq<u8>) -> bool {
    f == vp8x_tag() || f == iccp_tag() || f == exif_tag() || f == xmp_tag()
}

/// The (fourcc, payload) pairs of the chunks of `cs` other than
/// `VP8X`/`ICCP`/`EXIF`/`XMP `, in order.
pub open spec fn kept_entries(d: Seq<u8>, cs: Seq<(Seq<u8>, int, int)>) -> Seq<(Seq<u8>, Seq<u8>)>
    decreases cs.len(),
{
    if cs.len() == 0 {
        seq![]
    } else {
        let (f, s, n) = cs.last();
        kept_entries(d, cs.drop_last()) + (if is_meta_tag(f) {
            seq![]
        } else {
            seq![(f, d.subrange(s, s + n))]
        })
    }
}

/// The encoding of a list of (fourcc, payload) chunks, one after the other.
pub open spec fn enc_all(e: Seq<(Seq<u8>, Seq<u8>)>) -> Seq<u8>
    decreases e.len(),
{
    if e.len() == 0 {
        seq![]
    } else {
        enc_all(e.drop_last()) + riff_enc(e.last().0, e.last().1)
    }
}

pub open spec fn opt_entry(f: Seq<u8>, p: Option<Seq<u8>>) -> Seq<(Seq<u8>, Seq<u8>)> {
    match p {
        Some(p) => seq![(f, p)],
        None => seq![],
    }
}

/// The chunks of the RIFF body that `inject_webp` writes: `VP8X`, then
/// `ICCP`, then the image chunks of the input in their order, then `EXIF`
/// and `XMP `.
pub open spec fn body_entries(d: Seq<u8>, m: MetaView, w: u32, h: u32) -> Seq<(Seq<u8>, Seq<u8>)> {
    seq![(vp8x_tag(), vp8x_payload(webp_out_flags(d, m), w, h))] + opt_entry(iccp_tag(), m.icc)
        + kept_entries(d, riff_walk(d, 12)) + opt_entry(exif_tag(), m.exif) + opt_entry(
        xmp_tag(),
        m.xmp,
    )
}

/// The RIFF body that `inject_webp` writes.
pub open spec fn webp_body(d: Seq<u8>, m: MetaView, w: u32, h: u32) -> Seq<u8> {
    enc_all(body_entries(d, m, w, h))
}

/// The file that `inject_webp` writes.
pub open spec fn webp_injected(d: Seq<u8>, m: MetaView, w: u32, h: u32) -> Seq<u8> {
    let body = webp_body(d, m, w, h);
    riff_tag() + le32_bytes((4 + body.len()) as int % 0x1_0000_0000) + webp_tag() + body
}

fn is_tag4(f: &[u8; 4], a: u8, b: u8, c: u8, d: u8) -> (r: bool)
    ensures
        r == (f@ == tag(a, b, c, d)),
{
    let r = f[0] == a && f[1] == b && f[2] == c && f[3] == d;
    assert(r ==> f@ =~= tag(a, b, c, d));
    r
}

fn is_tag_at(d: &[u8], i: usize, a: u8, b: u8, c: u8, e: u8) -> (r: bool)
    requires
        i + 4 <= d@.len(),
    ensures
        r == (d@.subrange(i as int, i + 4) == tag(a, b, c, e)),
{
    let r = d[i] == a && d[i + 1] == b && d[i + 2] == c && d[i + 3] == e;
    assert(r ==> d@.subrange(i as int, i + 4) =~= tag(a, b, c, e));
    assert(d@.subrange(i as int, i + 4)[0] == d@[i as int]);
    assert(d@.subrange(i as int, i + 4)[1] == d@[i + 1]);
    assert(d@.subrange(i as int, i + 4)[2] == d@[i + 2]);
    assert(d@.subrange(i as int, i + 4)[3] == d@[i + 3]);
    r
}

pub open spec fn chunks_view(v: Seq<([u8; 4], usize, usize)>) -> Seq<(Seq<u8>, int, int)> {
    v.map_values(|c: ([u8; 4], usize, usize)| (c.0@, c.1 as int, c.2 as int))
}

/// The RIFF chunk directory of a WebP file: (fourcc, payload offset, payload
/// size) for each chunk, or `None` when the `RIFF`....`WEBP` header is missing.
pub fn riff_chunks(data: &[u8]) -> (r: Option<Vec<([u8; 4], usize, usize)>>)
    ensures
        r is Some <==> riff_chunks_spec(data@) is Some,
        r matches Some(v) ==> chunks_view(v@) == riff_chunks_spec(data@).unwrap(),
{
    if data.len() < 12 || !is_tag_at(data, 0, 0x52, 0x49, 0x46, 0x46) || !is_tag_at(
        data,
        8,
        0x57,
        0x45,
        0x42,
        0x50,
    ) {
        return None;
    }
    let mut chunks: Vec<([u8; 4], usize, usize)> = Vec::new();
    let mut pos: usize = 12;
    while data.len() - pos >= 8
        invariant
            12 <= pos <= data@.len(),
            data@.len() == data.len(),
            riff_walk(data@, 12) == chunks_view(chunks@) + riff_walk(data@, pos as int),
        ensures
            riff_walk(data@, 12) == chunks_view(chunks@),
        decreases data.len() - pos,
    {
        let fourcc: [u8; 4] = [data[pos], data[pos + 1], data[pos + 2], data[pos + 3]];
        let size = read_le32(data, pos + 4) as usize;
        let start = pos + 8;
        assert(fourcc@ =~= data@.subrange(pos as int, pos + 4));
        if size > data.len() - start {
            assert(riff_walk(data@, pos as int) =~= seq![]);
            assert(chunks_view(chunks@) + seq![] =~= chunks_view(chunks@));
            break;
        }
        let ghost old_chunks = chunks@;
        let ghost old_pos = pos;
        chunks.push((fourcc, start, size));
        assert(chunks_view(chunks@) =~= chunks_view(old_chunks).push(
            (data@.subrange(pos as int, pos + 4), start as int, size as int),
        ));
        let end = start + size;
        if end >= data.len() {
            assert(riff_walk(data@, old_pos as int) =~= seq![(data@.subrange(pos as int, pos + 4), start as int, size as int)]) by {
                if end + size % 2 <= data.len() {
                    assert(riff_walk(data@, (end + size % 2) as int) =~= seq![]);
                }
            }
            assert(chunks_view(chunks@) =~= chunks_view(old_chunks) + riff_walk(data@, old_pos as int));
            pos = data.len();
            assert(riff_walk(data@, pos as int) =~= seq![]);
            assert(chunks_view(chunks@) + seq![] =~= chunks_view(chunks@));
            break;
        }
        pos = end + (size % 2);
        assert(chunks_view(chunks@) + riff_walk(data@, pos as int) =~= chunks_view(old_chunks)
            + riff_walk(data@, old_pos as int));
    }
    proof {
        if data@.len() - pos < 8 {
            assert(riff_walk(data@, pos as int) =~= seq![]);
        }
        assert(chunks_view(chunks@) + seq![] =~= chunks_view(chunks@));
    }
    Some(chunks)
}

/// Extracts `ICCP`, `EXIF` and `XMP ` chunks from a WebP container. When a
/// kind occurs more than once, the last chunk of that kind is taken.
pub fn extract_webp(data: &[u8]) -> (m: Metadata)
    ensures
        m@ == webp_metadata(data@),
{
    let mut meta = Metadata::default();
    let chunks = match riff_chunks(data) {
        Some(c) => c,
        None => return meta,
    };
    let ghost cs = chunks_view(chunks@);
    proof {
        assert forall|k: int| 0 <= k < cs.len() implies #[trigger] cs[k].1 + cs[k].2 <= data@.len()
            && 0 <= cs[k].1 by {
            lemma_riff_walk_bounds(data@, 12, k);
        }
        assert(cs.skip(0) =~= cs);
    }
    let mut i: usize = 0;
    while i < chunks.len()
        invariant
            i <= chunks@.len(),
            data@.len() == data.len(),
            cs == chunks_view(chunks@),
            riff_chunks_spec(data@) == Some(cs),
            forall|k: int| 0 <= k < cs.len() ==> #[trigger] cs[k].1 + cs[k].2 <= data@.len() && 0
                <= cs[k].1,
            webp_metadata(data@) == webp_fold(data@, cs.skip(i as int), meta@),
        decreases chunks.len() - i,
    {
        let (fourcc, start, size) = chunks[i];
        proof {
            assert(cs[i as int] == (fourcc@, start as int, size as int));
            assert(cs[i as int].1 + cs[i as int].2 <= data@.len());
            assert(cs.skip(i as int)[0] == cs[i as int]);
            assert(cs.skip(i as int).drop_first() =~= cs.skip(i + 1));
        }
        let payload = copy_range(data, start, start + size);
        if is_tag4(&fourcc, 0x49, 0x43, 0x43, 0x50) {
            meta.icc = Some(payload);
        } else if is_tag4(&fourcc, 0x45, 0x58, 0x49, 0x46) {
            meta.exif = Some(payload);
        } else if is_tag4(&fourcc, 0x58, 0x4d, 0x50, 0x20) {
            meta.xmp = Some(payload);
        }
        i += 1;
    }
    meta
}


/// Appends one RIFF chunk (fourcc, little-endian size, payload, even padding) to `out`.
pub fn push_riff_chunk(out: &mut Vec<u8>, fourcc: &[u8; 4], payload: &[u8])
    ensures
        final(out)@ == old(out)@ + riff_enc(fourcc@, payload@),
{
    let ghost start = out@;
    push_all(out, fourcc.as_slice());
    let n = ((payload.len() as u64) % 0x1_0000_0000) as u32;
    push_le32(out, n);
    push_all(out, payload);
    if payload.len() % 2 == 1 {
        out.push(0);
    }
    assert(out@ =~= start + riff_enc(fourcc@, payload@));
}

/// Appends a chunk given by its four tag bytes.
fn push_tagged(out: &mut Vec<u8>, a: u8, b: u8, c: u8, d: u8, payload: &[u8])
    ensures
        final(out)@ == old(out)@ + riff_enc(tag(a, b, c, d), payload@),
{
    let f: [u8; 4] = [a, b, c, d];
    assert(f@ =~= tag(a, b, c, d));
    push_riff_chunk(out, &f, payload);
}

pub proof fn lemma_enc_all_push(e: Seq<(Seq<u8>, Seq<u8>)>, x: (Seq<u8>, Seq<u8>))
    ensures
        enc_all(e.push(x)) == enc_all(e) + riff_enc(x.0, x.1),
{
    assert(e.push(x).drop_last() =~= e);
}

pub proof fn lemma_enc_all_concat(a: Seq<(Seq<u8>, Seq<u8>)>, b: Seq<(Seq<u8>, Seq<u8>)>)
    ensures
        enc_all(a + b) == enc_all(a) + enc_all(b),
    decreases b.len(),
{
    if b.len() == 0 {
        assert(a + b =~= a);
        assert(enc_all(a) + enc_all(b) =~= enc_all(a));
    } else {
        lemma_enc_all_concat(a, b.drop_last());
        assert((a + b).drop_last() =~= a + b.drop_last());
        assert((a + b).last() == b.last());
        assert(enc_all(a + b) =~= enc_all(a) + enc_all(b));
    }
}

pub open spec fn chunks_in_bounds(d: Seq<u8>, cs: Seq<(Seq<u8>, int, int)>) -> bool {
    forall|k: int| 0 <= k < cs.len() ==> #[trigger] cs[k].1 + cs[k].2 <= d.len() && 0 <= cs[k].1
}

/// The OR of the flag bytes of the `VP8X` chunks among `chunks`.
fn existing_flags(data: &[u8], chunks: &Vec<([u8; 4], usize, usize)>) -> (flags: u8)
    requires
        chunks_in_bounds(data@, chunks_view(chunks@)),
    ensures
        flags == vp8x_flags(data@, chunks_view(chunks@)),
{
    let ghost cs = chunks_view(chunks@);
    let mut flags: u8 = 0;
    let mut i: usize = 0;
    while i < chunks.len()
        invariant
            i <= chunks@.len(),
            data@.len() == data.len(),
            cs == chunks_view(chunks@),
            chunks_in_bounds(data@, cs),
            flags == vp8x_flags(data@, cs.take(i as int)),
        decreases chunks.len() - i,
    {
        let (fourcc, start, size) = chunks[i];
        proof {
            assert(cs[i as int] == (fourcc@, start as int, size as int));
            assert(cs.take(i + 1).drop_last() =~= cs.take(i as int));
            assert(cs.take(i + 1).last() == cs[i as int]);
            assert(cs[i as int].1 + cs[i as int].2 <= data@.len());
        }
        if is_tag4(&fourcc, 0x56, 0x50, 0x38, 0x58) && size >= 10 {
            flags = flags | data[start];
        }
        i += 1;
    }
    assert(cs.take(cs.len() as int) =~= cs);
    flags
}

/// The 10-byte `VP8X` payload.
fn vp8x_bytes(flags: u8, width: u32, height: u32) -> (v: Vec<u8>)
    ensures
        v@ == vp8x_payload(flags, width, height),
{
    let mut vp8x: Vec<u8> = Vec::new();
    vp8x.push(flags);
    vp8x.push(0);
    vp8x.push(0);
    vp8x.push(0);
    let w: u32 = if width == 0 { 0 } else { width - 1 };
    let w: u32 = if w > 0xFF_FFFF { 0xFF_FFFF } else { w };
    let h: u32 = if height == 0 { 0 } else { height - 1 };
    let h: u32 = if h > 0xFF_FFFF { 0xFF_FFFF } else { h };
    vp8x.push((w % 256) as u8);
    vp8x.push(((w / 256) % 256) as u8);
    vp8x.push(((w / 65536) % 256) as u8);
    vp8x.push((h % 256) as u8);
    vp8x.push(((h / 256) % 256) as u8);
    vp8x.push(((h / 65536) % 256) as u8);
    assert(vp8x@ =~= vp8x_payload(flags, width, height));
    vp8x
}

/// Appends the image chunks (all but `VP8X`/`ICCP`/`EXIF`/`XMP `) of `data`, in order.
fn push_kept(body: &mut Vec<u8>, data: &[u8], chunks: &Vec<([u8; 4], usize, usize)>)
    requires
        chunks_in_bounds(data@, chunks_view(chunks@)),
    ensures
        final(body)@ == old(body)@ + enc_all(kept_entries(data@, chunks_view(chunks@))),
{
    let ghost cs = chunks_view(chunks@);
    let ghost start_body = body@;
    let mut i: usize = 0;
    while i < chunks.len()
        invariant
            i <= chunks@.len(),
            data@.len() == data.len(),
            cs == chunks_view(chunks@),
            chunks_in_bounds(data@, cs),
            body@ == start_body + enc_all(kept_entries(data@, cs.take(i as int))),
        decreases chunks.len() - i,
    {
        let (fourcc, start, size) = chunks[i];
        let ghost before = kept_entries(data@, cs.take(i as int));
        proof {
            assert(cs[i as int] == (fourcc@, start as int, size as int));
            assert(cs.take(i + 1).drop_last() =~= cs.take(i as int));
            assert(cs.take(i + 1).last() == cs[i as int]);
            assert(cs[i as int].1 + cs[i as int].2 <= data@.len());
        }
        let skip = is_tag4(&fourcc, 0x56, 0x50, 0x38, 0x58) || is_tag4(&fourcc, 0x49, 0x43, 0x43, 0x50)
            || is_tag4(&fourcc, 0x45, 0x58, 0x49, 0x46) || is_tag4(&fourcc, 0x58, 0x4d, 0x50, 0x20);
        if !skip {
            let payload = copy_range(data, start, start + size);
            push_riff_chunk(body, &fourcc, payload.as_slice());
            proof {
                lemma_enc_all_push(before, (fourcc@, payload@));
                assert(kept_entries(data@, cs.take(i + 1)) =~= before.push((fourcc@, payload@)));
            }
        } else {
            assert(kept_entries(data@, cs.take(i + 1)) =~= before);
        }
        i += 1;
    }
    assert(cs.take(cs.len() as int) =~= cs);
}

/// Appends an optional chunk.
fn push_opt(body: &mut Vec<u8>, a: u8, b: u8, c: u8, d: u8, p: &Option<Vec<u8>>)
    ensures
        final(body)@ == old(body)@ + enc_all(opt_entry(tag(a, b, c, d), opt_view(*p))),
{
    match p {
        Some(v) => {
            push_tagged(body, a, b, c, d, v.as_slice());
            proof {
                lemma_enc_all_push(seq![], (tag(a, b, c, d), v@));
                assert(seq![].push((tag(a, b, c, d), v@)) =~= opt_entry(tag(a, b, c, d), opt_view(*p)));
                assert(enc_all(seq![]) =~= seq![]);
            }
        },
        None => {
            assert(enc_all(opt_entry(tag(a, b, c, d), opt_view(*p))) =~= seq![]);
            assert(body@ =~= body@ + seq![]);
        },
    }
}

/// Injects `meta` into a freshly encoded (usually simple VP8/VP8L) WebP.
/// Builds the `VP8X` chunk (feature flags, keeping any flag bits of an
/// existing `VP8X`, and the canvas size `width` x `height`), places `ICCP`
/// before the image chunks and `EXIF`/`XMP ` after them, drops any earlier
/// metadata chunks, and sets the RIFF size.
pub fn inject_webp(data: &[u8], meta: &Metadata, width: u32, height: u32) -> (r: Result<
    Vec<u8>,
    ImzipError,
>)
    ensures
        r is Ok <==> riff_chunks_spec(data@) is Some,
        r matches Ok(out) ==> out@ == webp_injected(data@, meta@, width, height),
        r matches Err(e) ==> e matches ImzipError::Metadata(msg) && msg@
            == "invalid WebP: bad RIFF header"@,
{
    let chunks = match riff_chunks(data) {
        Some(c) => c,
        None => {
            return Err(ImzipError::metadata(crate::text::string_from("invalid WebP: bad RIFF header")));
        },
    };
    let ghost cs = chunks_view(chunks@);
    let ghost m = meta@;
    proof {
        assert forall|k: int| 0 <= k < cs.len() implies #[trigger] cs[k].1 + cs[k].2 <= data@.len()
            && 0 <= cs[k].1 by {
            lemma_riff_walk_bounds(data@, 12, k);
        }
    }
    // Flag bits of any existing VP8X chunk, then ours.
    let mut flags = existing_flags(data, &chunks);
    if meta.icc.is_some() {
        flags = flags | 0x20;
    }
    if meta.exif.is_some() {
        flags = flags | 0x08;
    }
    if meta.xmp.is_some() {
        flags = flags | 0x04;
    }
    let vp8x = vp8x_bytes(flags, width, height);

    let mut body: Vec<u8> = Vec::new();
    push_tagged(&mut body, 0x56, 0x50, 0x38, 0x58, vp8x.as_slice());
    // ICC must precede the image data.
    push_opt(&mut body, 0x49, 0x43, 0x43, 0x50, &meta.icc);
    push_kept(&mut body, data, &chunks);
    // EXIF and XMP go at the end.
    push_opt(&mut body, 0x45, 0x58, 0x49, 0x46, &meta.exif);
    push_opt(&mut body, 0x58, 0x4d, 0x50, 0x20, &meta.xmp);
    proof {
        lemma_body_parts(data@, m, width, height);
    }
    let out = riff_file(&body);
    Ok(out)
}

proof fn lemma_body_parts(d: Seq<u8>, m: MetaView, w: u32, h: u32)
    ensures
        webp_body(d, m, w, h) == seq![] + riff_enc(vp8x_tag(), vp8x_payload(webp_out_flags(d, m), w, h))
            + enc_all(opt_entry(iccp_tag(), m.icc)) + enc_all(kept_entries(d, riff_walk(d, 12)))
            + enc_all(opt_entry(exif_tag(), m.exif)) + enc_all(opt_entry(xmp_tag(), m.xmp)),
{
    let p = vp8x_payload(webp_out_flags(d, m), w, h);
    let e0 = seq![(vp8x_tag(), p)];
    let e1 = opt_entry(iccp_tag(), m.icc);
    let e2 = kept_entries(d, riff_walk(d, 12));
    let e3 = opt_entry(exif_tag(), m.exif);
    let e4 = opt_entry(xmp_tag(), m.xmp);
    lemma_enc_all_push(seq![], (vp8x_tag(), p));
    assert(seq![].push((vp8x_tag(), p)) =~= e0);
    assert(enc_all(seq![]) =~= seq![]);
    lemma_enc_all_concat(e0, e1);
    lemma_enc_all_concat(e0 + e1, e2);
    lemma_enc_all_concat(e0 + e1 + e2, e3);
    lemma_enc_all_concat(e0 + e1 + e2 + e3, e4);
    assert(seq![] + riff_enc(vp8x_tag(), p) =~= riff_enc(vp8x_tag(), p));
}

/// `RIFF`, the little-endian RIFF size (`4 + body.len()`), `WEBP`, then `body`.
fn riff_file(body: &Vec<u8>) -> (out: Vec<u8>)
    ensures
        out@ == riff_tag() + le32_bytes((4 + body@.len()) as int % 0x1_0000_0000) + webp_tag() + body@,
{
    let mut out: Vec<u8> = Vec::new();
    out.push(0x52);
    out.push(0x49);
    out.push(0x46);
    out.push(0x46);
    assert(out@ =~= riff_tag());
    let total = (((body.len() as u64) % 0x1_0000_0000 + 4) % 0x1_0000_0000) as u32;
    assert(total as int == (4 + body@.len()) as int % 0x1_0000_0000);
    push_le32(&mut out, total);
    let ghost h2 = out@;
    out.push(0x57);
    out.push(0x45);
    out.push(0x42);
    out.push(0x50);
    assert(out@ =~= h2 + webp_tag());
    let ghost h3 = out@;
    push_all(&mut out, body.as_slice());
    assert(out@ == h3 + body@);
    out
}


/// Every chunk of the walk lies inside `d`.
pub proof fn lemma_riff_walk_bounds(d: Seq<u8>, pos: int, k: int)
    requires
        0 <= k < riff_walk(d, pos).len(),
    ensures
        0 <= riff_walk(d, pos)[k].1,
        riff_walk(d, pos)[k].1 + riff_walk(d, pos)[k].2 <= d.len(),
        riff_walk(d, pos)[k].2 >= 0,
    decreases d.len() - pos,
{
    let size = le32_at(d, pos + 4);
    let start = pos + 8;
    let next = start + size + size % 2;
    if k > 0 && next <= d.len() {
        lemma_riff_walk_bounds(d, next, k - 1);
    }
}

} // verus!

verus! {

/// The metadata gathered from a list of (fourcc, payload) chunks, in order.
pub open spec fn fold_entries(e: Seq<(Seq<u8>, Seq<u8>)>, m: MetaView) -> MetaView
    decreases e.len(),
{
    if e.len() == 0 {
        m
    } else {
        fold_entries(e.drop_first(), webp_step(m, e[0].0, e[0].1))
    }
}

/// Chunks that a RIFF size field can describe.
pub open spec fn entries_ok(e: Seq<(Seq<u8>, Seq<u8>)>) -> bool {
    forall|i: int| 0 <= i < e.len() ==> (#[trigger] e[i]).0.len() == 4 && e[i].1.len() < 0x1_0000_0000
}

proof fn lemma_enc_one(e0: (Seq<u8>, Seq<u8>), rest: Seq<(Seq<u8>, Seq<u8>)>)
    ensures
        enc_all(seq![e0] + rest) == riff_enc(e0.0, e0.1) + enc_all(rest),
{
    lemma_enc_all_concat(seq![e0], rest);
    lemma_enc_all_push(seq![], e0);
    assert(seq![].push(e0) =~= seq![e0]);
    assert(enc_all(seq![]) =~= seq![]);
    assert(seq![] + riff_enc(e0.0, e0.1) =~= riff_enc(e0.0, e0.1));
}

/// One step of the walk over an encoded chunk.
proof fn lemma_walk_step(d: Seq<u8>, pos: int, f: Seq<u8>, p: Seq<u8>)
    requires
        0 <= pos,
        f.len() == 4,
        p.len() < 0x1_0000_0000,
        pos + riff_enc(f, p).len() <= d.len(),
        d.subrange(pos, pos + riff_enc(f, p).len()) == riff_enc(f, p),
    ensures
        riff_walk(d, pos) == seq![(f, pos + 8, p.len() as int)] + riff_walk(d, pos + riff_enc(f, p).len()),
        d.subrange(pos + 8, pos + 8 + p.len()) == p,
{
    let e = riff_enc(f, p);
    let n = p.len() as int;
    let sub = d.subrange(pos, pos + e.len());
    assert(d.subrange(pos, pos + 4) =~= sub.subrange(0, 4));
    assert(sub.subrange(0, 4) =~= f);
    assert(d.subrange(pos + 4, pos + 8) =~= sub.subrange(4, 8));
    assert(sub.subrange(4, 8) =~= le32_bytes(n % 0x1_0000_0000));
    lemma_le32_roundtrip(n, d, pos + 4);
    assert(d.subrange(pos + 8, pos + 8 + n) =~= sub.subrange(8, 8 + n));
    assert(sub.subrange(8, 8 + n) =~= p);
    assert(pos + 8 + n + n % 2 == pos + e.len());
}

/// Walking a sequence of encoded chunks placed after any prefix `x` finds
/// exactly those chunks, so the gathered metadata is that of the chunks.
proof fn lemma_walk_enc(x: Seq<u8>, e: Seq<(Seq<u8>, Seq<u8>)>, m: MetaView)
    requires
        entries_ok(e),
    ensures
        webp_fold(x + enc_all(e), riff_walk(x + enc_all(e), x.len() as int), m) == fold_entries(e, m),
    decreases e.len(),
{
    let d = x + enc_all(e);
    if e.len() == 0 {
        assert(enc_all(e) =~= seq![]);
        assert(d =~= x);
        assert(riff_walk(d, x.len() as int) =~= seq![]);
    } else {
        let e0 = e[0];
        let rest = e.drop_first();
        assert(e =~= seq![e0] + rest);
        lemma_enc_one(e0, rest);
        let enc0 = riff_enc(e0.0, e0.1);
        let x2 = x + enc0;
        assert(d =~= x2 + enc_all(rest));
        let pos = x.len() as int;
        assert(d.subrange(pos, pos + enc0.len()) =~= enc0);
        lemma_walk_step(d, pos, e0.0, e0.1);
        assert(entries_ok(rest)) by {
            assert forall|i: int| 0 <= i < rest.len() implies (#[trigger] rest[i]).0.len() == 4
                && rest[i].1.len() < 0x1_0000_0000 by {
                assert(rest[i] == e[i + 1]);
            }
        }
        lemma_walk_enc(x2, rest, webp_step(m, e0.0, e0.1));
        let w = riff_walk(d, pos);
        assert(w[0] == (e0.0, pos + 8, e0.1.len() as int));
        assert(w.drop_first() =~= riff_walk(d, x2.len() as int));
    }
}

proof fn lemma_fold_concat(a: Seq<(Seq<u8>, Seq<u8>)>, b: Seq<(Seq<u8>, Seq<u8>)>, m: MetaView)
    ensures
        fold_entries(a + b, m) == fold_entries(b, fold_entries(a, m)),
    decreases a.len(),
{
    if a.len() == 0 {
        assert(a + b =~= b);
    } else {
        assert((a + b).drop_first() =~= a.drop_first() + b);
        assert((a + b)[0] == a[0]);
        lemma_fold_concat(a.drop_first(), b, webp_step(m, a[0].0, a[0].1));
    }
}

/// Facts about every entry of a RIFF walk.
proof fn lemma_riff_walk_entry(d: Seq<u8>, pos: int, k: int)
    requires
        0 <= k < riff_walk(d, pos).len(),
    ensures
        riff_walk(d, pos)[k].0.len() == 4,
        0 <= riff_walk(d, pos)[k].1,
        0 <= riff_walk(d, pos)[k].2 < 0x1_0000_0000,
        riff_walk(d, pos)[k].1 + riff_walk(d, pos)[k].2 <= d.len(),
    decreases d.len() - pos,
{
    let size = le32_at(d, pos + 4);
    let start = pos + 8;
    let next = start + size + size % 2;
    if k > 0 && next <= d.len() {
        lemma_riff_walk_entry(d, next, k - 1);
    }
}

/// The image chunks that are carried over are well-formed and carry no metadata.
proof fn lemma_kept(d: Seq<u8>, cs: Seq<(Seq<u8>, int, int)>, m: MetaView)
    requires
        forall|k: int| 0 <= k < cs.len() ==> (#[trigger] cs[k]).0.len() == 4 && 0 <= cs[k].1 && 0
            <= cs[k].2 < 0x1_0000_0000 && cs[k].1 + cs[k].2 <= d.len(),
    ensures
        entries_ok(kept_entries(d, cs)),
        fold_entries(kept_entries(d, cs), m) == m,
    decreases cs.len(),
{
    if cs.len() > 0 {
        let (f, s, n) = cs.last();
        assert(cs.last() == cs[cs.len() - 1]);
        let init = cs.drop_last();
        assert forall|k: int| 0 <= k < init.len() implies (#[trigger] init[k]).0.len() == 4 && 0
            <= init[k].1 && 0 <= init[k].2 < 0x1_0000_0000 && init[k].1 + init[k].2 <= d.len() by {
            assert(init[k] == cs[k]);
        }
        lemma_kept(d, init, m);
        let tail: Seq<(Seq<u8>, Seq<u8>)> = if is_meta_tag(f) {
            seq![]
        } else {
            seq![(f, d.subrange(s, s + n))]
        };
        lemma_fold_concat(kept_entries(d, init), tail, m);
        assert(kept_entries(d, cs) == kept_entries(d, init) + tail);
        if !is_meta_tag(f) {
            assert(tail.drop_first() =~= seq![]);
            assert(fold_entries(tail, m) == fold_entries(seq![], webp_step(m, f, d.subrange(s, s + n))));
        } else {
            assert(fold_entries(tail, m) == m);
        }
        let k = kept_entries(d, cs);
        assert forall|i: int| 0 <= i < k.len() implies (#[trigger] k[i]).0.len() == 4 && k[i].1.len()
            < 0x1_0000_0000 by {
            if i < kept_entries(d, init).len() {
                assert(k[i] == kept_entries(d, init)[i]);
            } else {
                assert(k[i] == tail[i - kept_entries(d, init).len()]);
            }
        }
    }
}

pub open spec fn opt_len_ok(p: Option<Seq<u8>>) -> bool {
    match p {
        Some(p) => p.len() < 0x1_0000_0000,
        None => true,
    }
}

proof fn lemma_opt_entry(f: Seq<u8>, p: Option<Seq<u8>>, m: MetaView)
    requires
        f.len() == 4,
        opt_len_ok(p),
    ensures
        entries_ok(opt_entry(f, p)),
        fold_entries(opt_entry(f, p), m) == (match p {
            Some(q) => webp_step(m, f, q),
            None => m,
        }),
{
    if let Some(q) = p {
        assert(opt_entry(f, p).drop_first() =~= seq![]);
        assert(fold_entries(opt_entry(f, p), m) == fold_entries(seq![], webp_step(m, f, q)));
    }
}

proof fn lemma_entries_ok_concat(a: Seq<(Seq<u8>, Seq<u8>)>, b: Seq<(Seq<u8>, Seq<u8>)>)
    requires
        entries_ok(a),
        entries_ok(b),
    ensures
        entries_ok(a + b),
{
    assert forall|i: int| 0 <= i < (a + b).len() implies (#[trigger] (a + b)[i]).0.len() == 4 && (a
        + b)[i].1.len() < 0x1_0000_0000 by {
        if i < a.len() {
            assert((a + b)[i] == a[i]);
        } else {
            assert((a + b)[i] == b[i - a.len()]);
        }
    }
}

/// Round trip: whatever metadata `inject_webp` writes into a WebP file is
/// exactly what `extract_webp` reads back from the result (each part must be
/// shorter than 4 GiB, the limit of a RIFF chunk).
pub proof fn lemma_webp_roundtrip(d: Seq<u8>, m: MetaView, w: u32, h: u32)
    requires
        riff_chunks_spec(d) is Some,
        opt_len_ok(m.icc),
        opt_len_ok(m.exif),
        opt_len_ok(m.xmp),
    ensures
        webp_metadata(webp_injected(d, m, w, h)) == m,
{
    let body = webp_body(d, m, w, h);
    let hdr = riff_tag() + le32_bytes((4 + body.len()) as int % 0x1_0000_0000) + webp_tag();
    let out = webp_injected(d, m, w, h);
    assert(out =~= hdr + body);
    assert(hdr.len() == 12);
    assert(out.subrange(0, 4) =~= riff_tag());
    assert(out.subrange(8, 12) =~= webp_tag());
    let cs = riff_walk(d, 12);
    assert forall|k: int| 0 <= k < cs.len() implies (#[trigger] cs[k]).0.len() == 4 && 0 <= cs[k].1
        && 0 <= cs[k].2 < 0x1_0000_0000 && cs[k].1 + cs[k].2 <= d.len() by {
        lemma_riff_walk_entry(d, 12, k);
    }
    let e0 = seq![(vp8x_tag(), vp8x_payload(webp_out_flags(d, m), w, h))];
    let e1 = opt_entry(iccp_tag(), m.icc);
    let e2 = kept_entries(d, cs);
    let e3 = opt_entry(exif_tag(), m.exif);
    let e4 = opt_entry(xmp_tag(), m.xmp);
    let empty = empty_meta();
    lemma_kept(d, cs, empty);
    lemma_opt_entry(iccp_tag(), m.icc, empty);
    assert(entries_ok(e0));
    lemma_entries_ok_concat(e0, e1);
    lemma_entries_ok_concat(e0 + e1, e2);
    lemma_opt_entry(exif_tag(), m.exif, empty);
    lemma_entries_ok_concat(e0 + e1 + e2, e3);
    lemma_opt_entry(xmp_tag(), m.xmp, empty);
    lemma_entries_ok_concat(e0 + e1 + e2 + e3, e4);
    lemma_walk_enc(hdr, e0 + e1 + e2 + e3 + e4, empty);
    // Fold the five groups one after the other.
    lemma_fold_concat(e0 + e1 + e2 + e3, e4, empty);
    lemma_fold_concat(e0 + e1 + e2, e3, empty);
    lemma_fold_concat(e0 + e1, e2, empty);
    lemma_fold_concat(e0, e1, empty);
    assert(e0.drop_first() =~= seq![]);
    assert(vp8x_tag()[0] != iccp_tag()[0] && vp8x_tag()[0] != exif_tag()[0] && vp8x_tag()[0]
        != xmp_tag()[0]);
    assert(fold_entries(e0, empty) == fold_entries(seq![], webp_step(empty, e0[0].0, e0[0].1)));
    let s0 = fold_entries(e0, empty);
    assert(s0 == empty);
    let s1 = fold_entries(e1, s0);
    lemma_opt_entry(iccp_tag(), m.icc, s0);
    lemma_kept(d, cs, s1);
    let s2 = fold_entries(e2, s1);
    assert(s2 == s1);
    lemma_opt_entry(exif_tag(), m.exif, s2);
    let s3 = fold_entries(e3, s2);
    lemma_opt_entry(xmp_tag(), m.xmp, s3);
    let s4 = fold_entries(e4, s3);
    assert(s4 == m);
}

} // verus!
