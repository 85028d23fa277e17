//! JPEG metadata: EXIF and XMP in APP1 segments, ICC in (possibly several)
//! APP2 `ICC_PROFILE` segments.

use vstd::prelude::*;
use crate::bytes::{be16, be16_bytes, starts_with, push_all, push_be16, push_range, copy_range, starts_with_at, lemma_be16_roundtrip};
use crate::error::ImzipError;
use super::{Metadata, MetaView, empty_meta, opt_view};

verus! {

/// `Exif\0\0`, the prefix of an EXIF APP1 payload.
pub open spec fn exif_header() -> Seq<u8> {
    seq![0x45u8, 0x78, 0x69, 0x66, 0x00, 0x00]
}

/// `http://ns.adobe.com/xap/1.0/\0`, the prefix of an XMP APP1 payload.
pub open spec fn xmp_header() -> Seq<u8> {
    seq![0x68u8, 0x74, 0x74, 0x70, 0x3a, 0x2f, 0x2f, 0x6e, 0x73, 0x2e, 0x61, 0x64, 0x6f, 0x62, 0x65, 0x2e,
        0x63, 0x6f, 0x6d, 0x2f, 0x78, 0x61, 0x70, 0x2f, 0x31, 0x2e, 0x30, 0x2f, 0x00]
}

/// `ICC_PROFILE\0`, the prefix of an ICC APP2 payload.
pub open spec fn icc_header() -> Seq<u8> {
    seq![0x49u8, 0x43, 0x43, 0x5f, 0x50, 0x52, 0x4f, 0x46, 0x49, 0x4c, 0x45, 0x00]
}

pub fn exif_header_bytes() -> (v: Vec<u8>)
    ensures
        v@ == exif_header(),
{
    let v = vec![0x45u8, 0x78, 0x69, 0x66, 0x00, 0x00];
    assert(v@ =~= exif_header());
    v
}

pub fn xmp_header_bytes() -> (v: Vec<u8>)
    ensures
        v@ == xmp_header(),
{
    let v = vec![0x68u8, 0x74, 0x74, 0x70, 0x3a, 0x2f, 0x2f, 0x6e, 0x73, 0x2e, 0x61, 0x64, 0x6f, 0x62,
        0x65, 0x2e, 0x63, 0x6f, 0x6d, 0x2f, 0x78, 0x61, 0x70, 0x2f, 0x31, 0x2e, 0x30, 0x2f, 0x00];
    assert(v@ =~= xmp_header());
    v
}

/// The payload prefix of an ICC APP2 segment, `ICC_PROFILE\0`.
pub fn icc_header_bytes() -> (v: Vec<u8>)
    ensures
        v@ == icc_header(),
{
    let v = vec![0x49u8, 0x43, 0x43, 0x5f, 0x50, 0x52, 0x4f, 0x46, 0x49, 0x4c, 0x45, 0x00];
    assert(v@ =~= icc_header());
    v
}

/// What the segment scan has found so far: the first EXIF, the first XMP,
/// and every ICC chunk with its sequence number, in file order.
pub struct JpegScan {
    pub exif: Option<Seq<u8>>,
    pub xmp: Option<Seq<u8>>,
    pub icc: Seq<(u8, Seq<u8>)>,
}

pub open spec fn empty_scan() -> JpegScan {
    JpegScan { exif: None, xmp: None, icc: seq![] }
}

/// Markers that stand alone, without a length field.
pub open spec fn standalone(marker: u8) -> bool {
    marker == 0xD8 || marker == 0x01 || (0xD0 <= marker && marker <= 0xD7)
}

/// The effect of one segment with marker `marker` and payload `p`.
pub open spec fn jpeg_segment(st: JpegScan, marker: u8, p: Seq<u8>) -> JpegScan {
    if marker == 0xE1 {
        if starts_with(p, exif_header()) && st.exif is None {
            JpegScan { exif: Some(p.skip(6)), ..st }
        } else if starts_with(p, xmp_header()) && st.xmp is None {
            JpegScan { xmp: Some(p.skip(29)), ..st }
        } else {
            st
        }
    } else if marker == 0xE2 && p.len() >= 14 && starts_with(p, icc_header()) {
        if p[12] >= 1 {
            JpegScan { icc: st.icc.push((p[12], p.skip(14))), ..st }
        } else {
            st
        }
    } else {
        st
    }
}

/// The scan of the segments in `s` (the bytes after SOI). It stops at the
/// start of scan (`SOS`, 0xDA), at a byte that is not a marker, or at a
/// segment whose length is invalid or runs past the end.
pub open spec fn jpeg_scan(s: Seq<u8>, st: JpegScan) -> JpegScan
    decreases s.len(),
{
    if s.len() < 4 || s[0] != 0xFF {
        st
    } else if standalone(s[1]) {
        jpeg_scan(s.skip(2), st)
    } else if s[1] == 0xDA {
        st
    } else {
        let len = be16(s[2], s[3]);
        if len < 2 || 2 + len > s.len() {
            st
        } else {
            jpeg_scan(s.skip(2 + len), jpeg_segment(st, s[1], s.subrange(4, 2 + len)))
        }
    }
}

/// The payloads of the chunks with sequence number `k`, in order.
pub open spec fn key_concat(c: Seq<(u8, Seq<u8>)>, k: int) -> Seq<u8>
    decreases c.len(),
{
    if c.len() == 0 {
        seq![]
    } else {
        key_concat(c.drop_last(), k) + (if c.last().0 == k {
            c.last().1
        } else {
            seq![]
        })
    }
}

/// The payloads of the chunks with sequence numbers `1..=n`, ordered by
/// sequence number, chunks with equal numbers in their original order.
pub open spec fn join_keys(c: Seq<(u8, Seq<u8>)>, n: int) -> Seq<u8>
    decreases n,
{
    if n <= 0 {
        seq![]
    } else {
        join_keys(c, n - 1) + key_concat(c, n)
    }
}

/// The metadata that `extract_jpeg` finds: the first EXIF, the first XMP,
/// and the ICC profile reassembled from its chunks (a stable sort by
/// sequence number, then concatenation).
pub open spec fn jpeg_metadata(d: Seq<u8>) -> MetaView {
    if d.len() < 4 || d[0] != 0xFF || d[1] != 0xD8 {
        empty_meta()
    } else {
        let st = jpeg_scan(d.skip(2), empty_scan());
        MetaView {
            icc: if st.icc.len() == 0 {
                None
            } else {
                Some(join_keys(st.icc, 255))
            },
            exif: st.exif,
            xmp: st.xmp,
        }
    }
}

pub open spec fn chunk_list_view(v: Seq<(u8, Vec<u8>)>) -> Seq<(u8, Seq<u8>)> {
    v.map_values(|c: (u8, Vec<u8>)| (c.0, c.1@))
}

/// The state of the exec scan, seen as a [`JpegScan`].
pub open spec fn scan_view(exif: Option<Vec<u8>>, xmp: Option<Vec<u8>>, icc: Seq<(u8, Vec<u8>)>) -> JpegScan {
    JpegScan { exif: opt_view(exif), xmp: opt_view(xmp), icc: chunk_list_view(icc) }
}

/// Extracts EXIF (APP1 `Exif\0\0`), XMP (APP1 XMP namespace) and ICC (APP2
/// `ICC_PROFILE\0`, reassembling multi-chunk sequences) from a JPEG.
pub fn extract_jpeg(data: &[u8]) -> (m: Metadata)
    ensures
        m@ == jpeg_metadata(data@),
{
    let mut meta = Metadata::default();
    if data.len() < 4 || data[0] != 0xFF || data[1] != 0xD8 {
        return meta;
    }
    let exif_h = exif_header_bytes();
    let xmp_h = xmp_header_bytes();
    let icc_h = icc_header_bytes();
    let mut exif: Option<Vec<u8>> = None;
    let mut xmp: Option<Vec<u8>> = None;
    let mut icc_chunks: Vec<(u8, Vec<u8>)> = Vec::new();
    let mut pos: usize = 2;
    proof {
        assert(chunk_list_view(icc_chunks@) =~= seq![]);
    }
    while pos <= data.len() && data.len() - pos >= 4
        invariant
            2 <= pos,
            data@.len() == data.len(),
            exif_h@ == exif_header(),
            xmp_h@ == xmp_header(),
            icc_h@ == icc_header(),
            jpeg_scan(data@.skip(2), empty_scan()) == jpeg_scan(
                if pos <= data@.len() { data@.skip(pos as int) } else { seq![] },
                scan_view(exif, xmp, icc_chunks@),
            ),
        ensures
            jpeg_scan(data@.skip(2), empty_scan()) == scan_view(exif, xmp, icc_chunks@),
        decreases data.len() - pos,
    {
        let ghost s = data@.skip(pos as int);
        assert(s[0] == data@[pos as int] && s[1] == data@[pos + 1] && s[2] == data@[pos + 2] && s[3]
            == data@[pos + 3]);
        if data[pos] != 0xFF {
            break;
        }
        let marker = data[pos + 1];
        // Standalone markers without a length field.
        if marker == 0xD8 || marker == 0x01 || (0xD0 <= marker && marker <= 0xD7) {
            assert(s.skip(2) =~= data@.skip(pos + 2));
            pos += 2;
            continue;
        }
        if marker == 0xDA {
            break;  // SOS: image data follows, no more metadata segments
        }
        let len = (data[pos + 2] as usize) * 256 + (data[pos + 3] as usize);
        if len < 2 || len > data.len() - pos - 2 {
            break;
        }
        let ghost p = s.subrange(4, 2 + len);
        assert(p =~= data@.subrange(pos + 4, pos + 2 + len));
        assert(s.skip(2 + len) =~= data@.skip(pos + 2 + len));
        let ghost before = scan_view(exif, xmp, icc_chunks@);
        if marker == 0xE1 {
            if starts_with_at(data, pos + 4, exif_h.as_slice()) && 6 <= len - 2 && exif.is_none() {
                assert(data@.skip(pos + 4).take(6) =~= p.take(6));
                exif = Some(copy_range(data, pos + 4 + 6, pos + 2 + len));
                assert(p.skip(6) =~= data@.subrange(pos + 4 + 6, pos + 2 + len));
            } else if starts_with_at(data, pos + 4, xmp_h.as_slice()) && 29 <= len - 2 && xmp.is_none() {
                assert(data@.skip(pos + 4).take(29) =~= p.take(29));
                xmp = Some(copy_range(data, pos + 4 + 29, pos + 2 + len));
                assert(p.skip(29) =~= data@.subrange(pos + 4 + 29, pos + 2 + len));
            } else {
                proof {
                    if 6 <= p.len() {
                        assert(data@.skip(pos + 4).take(6) =~= p.take(6));
                    }
                    if 29 <= p.len() {
                        assert(data@.skip(pos + 4).take(29) =~= p.take(29));
                    }
                }
            }
        } else if marker == 0xE2 && len - 2 >= 14 && starts_with_at(data, pos + 4, icc_h.as_slice()) {
            assert(data@.skip(pos + 4).take(12) =~= p.take(12));
            let seq_no = data[pos + 4 + 12];
            assert(p[12] == seq_no);
            if seq_no >= 1 {
                let chunk = copy_range(data, pos + 4 + 14, pos + 2 + len);
                let ghost old_chunks = icc_chunks@;
                assert(p.skip(14) =~= chunk@);
                icc_chunks.push((seq_no, chunk));
                assert(chunk_list_view(icc_chunks@) =~= chunk_list_view(old_chunks).push((seq_no, p.skip(14))));
            }
        } else {
            proof {
                if marker == 0xE2 && p.len() >= 14 {
                    assert(data@.skip(pos + 4).take(12) =~= p.take(12));
                }
            }
        }
        assert(scan_view(exif, xmp, icc_chunks@) == jpeg_segment(before, marker, p));
        pos += 2 + len;
    }
    let icc = if icc_chunks.len() == 0 {
        None
    } else {
        Some(join_chunks(&icc_chunks))
    };
    Metadata { icc, exif, xmp }
}

/// The ICC profile reassembled from `chunks`: payloads ordered by sequence
/// number (1 to 255), equal numbers in their original order.
fn join_chunks(chunks: &Vec<(u8, Vec<u8>)>) -> (icc: Vec<u8>)
    ensures
        icc@ == join_keys(chunk_list_view(chunks@), 255),
{
    let ghost c = chunk_list_view(chunks@);
    let mut icc: Vec<u8> = Vec::new();
    let mut k: u16 = 1;
    while k <= 255
        invariant
            1 <= k <= 256,
            c == chunk_list_view(chunks@),
            icc@ == join_keys(c, k - 1),
        decreases 256 - k,
    {
        let ghost base = icc@;
        let mut j: usize = 0;
        while j < chunks.len()
            invariant
                j <= chunks@.len(),
                1 <= k <= 255,
                c == chunk_list_view(chunks@),
                icc@ == base + key_concat(c.take(j as int), k as int),
            decreases chunks.len() - j,
        {
            assert(c.take(j + 1).drop_last() =~= c.take(j as int));
            assert(c.take(j + 1).last() == c[j as int]);
            if chunks[j].0 as u16 == k {
                push_all(&mut icc, chunks[j].1.as_slice());
            }
            j += 1;
            assert(icc@ =~= base + key_concat(c.take(j as int), k as int));
        }
        assert(c.take(chunks.len() as int) =~= c);
        k += 1;
    }
    icc
}

} // verus!

verus! {

/// The largest ICC chunk one APP2 segment holds: 65535 minus the length
/// field (2), the header (12) and the sequence/count bytes (2).
pub open spec fn icc_max_chunk() -> int {
    65519
}

/// The number of APP2 segments an ICC profile of `len` bytes needs.
pub open spec fn icc_count(len: int) -> int {
    len / 65519 + (if len % 65519 != 0 { 1int } else { 0 })
}

/// The `i`-th ICC chunk (0-based).
pub open spec fn icc_chunk(icc: Seq<u8>, i: int) -> Seq<u8> {
    let lo = i * 65519;
    let hi = if (i + 1) * 65519 < icc.len() { (i + 1) * 65519 } else { icc.len() as int };
    icc.subrange(lo, hi)
}

/// One APP segment: marker `0xFF mk`, big-endian length (payload + 2), payload.
pub open spec fn app_segment(mk: u8, payload: Seq<u8>) -> Seq<u8> {
    seq![0xFFu8, mk] + be16_bytes(payload.len() + 2int) + payload
}

/// The payload of the `i`-th ICC APP2 segment out of `count`.
pub open spec fn icc_payload(icc: Seq<u8>, i: int, count: int) -> Seq<u8> {
    icc_header() + seq![(i + 1) as u8, count as u8] + icc_chunk(icc, i)
}

/// The first `n` ICC APP2 segments.
pub open spec fn icc_segments_upto(icc: Seq<u8>, n: int, count: int) -> Seq<u8>
    decreases n,
{
    if n <= 0 {
        seq![]
    } else {
        icc_segments_upto(icc, n - 1, count) + app_segment(0xE2, icc_payload(icc, n - 1, count))
    }
}

/// The segments written for each part; a part too large for its segment
/// format (EXIF/XMP over one segment, ICC over 255 segments) is left out.
pub open spec fn exif_segment(e: Option<Seq<u8>>) -> Seq<u8> {
    match e {
        Some(e) => if 6 + e.len() + 2 <= 0xFFFF {
            app_segment(0xE1, exif_header() + e)
        } else {
            seq![]
        },
        None => seq![],
    }
}

pub open spec fn xmp_segment(x: Option<Seq<u8>>) -> Seq<u8> {
    match x {
        Some(x) => if 29 + x.len() + 2 <= 0xFFFF {
            app_segment(0xE1, xmp_header() + x)
        } else {
            seq![]
        },
        None => seq![],
    }
}

pub open spec fn icc_segments(c: Option<Seq<u8>>) -> Seq<u8> {
    match c {
        Some(c) => if icc_count(c.len() as int) <= 255 {
            icc_segments_upto(c, icc_count(c.len() as int), icc_count(c.len() as int))
        } else {
            seq![]
        },
        None => seq![],
    }
}

/// The JPEG that `inject_jpeg` writes: SOI, the EXIF, XMP and ICC segments,
/// then the rest of the input.
pub open spec fn jpeg_injected(d: Seq<u8>, m: MetaView) -> Seq<u8> {
    d.take(2) + exif_segment(m.exif) + xmp_segment(m.xmp) + icc_segments(m.icc) + d.skip(2)
}

/// Appends `0xFF mk`, the length and the payload.
fn push_app_segment(out: &mut Vec<u8>, mk: u8, header: &[u8], body: &[u8], from: usize, to: usize)
    requires
        from <= to <= body@.len(),
        header@.len() + (to - from) + 2 <= 0xFFFF,
    ensures
        final(out)@ == old(out)@ + app_segment(mk, header@ + body@.subrange(from as int, to as int)),
{
    let ghost start = out@;
    out.push(0xFF);
    out.push(mk);
    let n = (header.len() + (to - from) + 2) as u16;
    push_be16(out, n);
    push_all(out, header);
    push_range(out, body, from, to);
    assert(out@ =~= start + app_segment(mk, header@ + body@.subrange(from as int, to as int)));
}

/// Inserts EXIF, XMP and ICC segments right after SOI. The ICC profile is
/// split into numbered `n/m` APP2 chunks when it does not fit one segment.
/// A part too large for its segment format is silently left out.
pub fn inject_jpeg(data: &[u8], meta: &Metadata) -> (r: Result<Vec<u8>, ImzipError>)
    ensures
        r is Ok <==> (data@.len() >= 2 && data@[0] == 0xFF && data@[1] == 0xD8),
        r matches Ok(out) ==> out@ == jpeg_injected(data@, meta@),
        r matches Err(e) ==> e matches ImzipError::Metadata(msg) && msg@
            == "invalid JPEG: missing SOI"@,
{
    if data.len() < 2 || data[0] != 0xFF || data[1] != 0xD8 {
        return Err(ImzipError::metadata(crate::text::string_from("invalid JPEG: missing SOI")));
    }
    let ghost m = meta@;
    let mut out: Vec<u8> = Vec::new();
    push_range(&mut out, data, 0, 2);  // SOI
    assert(out@ =~= data@.take(2));

    // One APPn payload holds at most 65533 bytes (the length counts itself).
    if let Some(exif) = &meta.exif {
        if exif.len() <= 0xFFFF - 8 {
            let h = exif_header_bytes();
            push_app_segment(&mut out, 0xE1, h.as_slice(), exif.as_slice(), 0, exif.len());
            assert(exif@.subrange(0, exif@.len() as int) =~= exif@);
        }
    }
    assert(out@ =~= data@.take(2) + exif_segment(m.exif));
    if let Some(xmp) = &meta.xmp {
        if xmp.len() <= 0xFFFF - 31 {
            let h = xmp_header_bytes();
            push_app_segment(&mut out, 0xE1, h.as_slice(), xmp.as_slice(), 0, xmp.len());
            assert(xmp@.subrange(0, xmp@.len() as int) =~= xmp@);
        }
    }
    assert(out@ =~= data@.take(2) + exif_segment(m.exif) + xmp_segment(m.xmp));
    if let Some(icc) = &meta.icc {
        let max_chunk: usize = 65519;
        let count: usize = icc.len() / max_chunk + if icc.len() % max_chunk != 0 { 1 } else { 0 };
        if count <= 255 {
            push_icc_segments(&mut out, icc, count);
        }
    }
    assert(out@ =~= data@.take(2) + exif_segment(m.exif) + xmp_segment(m.xmp) + icc_segments(m.icc));
    push_range(&mut out, data, 2, data.len());
    assert(data@.subrange(2, data@.len() as int) =~= data@.skip(2));
    Ok(out)
}

/// Appends the `count` numbered APP2 segments of `icc`.
fn push_icc_segments(out: &mut Vec<u8>, icc: &Vec<u8>, count: usize)
    requires
        count == icc_count(icc@.len() as int),
        count <= 255,
    ensures
        final(out)@ == old(out)@ + icc_segments_upto(icc@, count as int, count as int),
{
    let ghost start = out@;
    let h = icc_header_bytes();
    let mut i: usize = 0;
    while i < count
        invariant
            i <= count <= 255,
            count == icc_count(icc@.len() as int),
            h@ == icc_header(),
            out@ == start + icc_segments_upto(icc@, i as int, count as int),
        decreases count - i,
    {
        let lo = i * 65519;
        assert(lo < icc@.len()) by {
            assert(i < icc@.len() / 65519 + (if icc@.len() % 65519 != 0 { 1int } else { 0 }));
        }
        let hi = if icc.len() - lo > 65519 { lo + 65519 } else { icc.len() };
        let mut header: Vec<u8> = Vec::new();
        push_all(&mut header, h.as_slice());
        header.push((i + 1) as u8);
        header.push(count as u8);
        push_app_segment(out, 0xE2, header.as_slice(), icc.as_slice(), lo, hi);
        assert(header@ + icc@.subrange(lo as int, hi as int) =~= icc_payload(icc@, i as int, count as int));
        i += 1;
    }
}

} // verus!

verus! {

/// Scanning an APP segment followed by anything applies that segment.
proof fn lemma_scan_app(mk: u8, p: Seq<u8>, rest: Seq<u8>, st: JpegScan)
    requires
        !standalone(mk),
        mk != 0xDA,
        p.len() + 2 <= 0xFFFF,
    ensures
        jpeg_scan(app_segment(mk, p) + rest, st) == jpeg_scan(rest, jpeg_segment(st, mk, p)),
{
    let seg = app_segment(mk, p);
    let s = seg + rest;
    lemma_be16_roundtrip(p.len() + 2int);
    assert(s[0] == 0xFF && s[1] == mk);
    assert(s[2] == be16_bytes(p.len() + 2int)[0] && s[3] == be16_bytes(p.len() + 2int)[1]);
    assert(s.subrange(4, 2int + p.len() + 2) =~= p);
    assert(s.skip(2int + p.len() + 2) =~= rest);
}

/// How a scan that starts from some state relates to one that starts empty:
/// the first EXIF/XMP wins, ICC chunks accumulate.
pub open spec fn combine(a: JpegScan, b: JpegScan) -> JpegScan {
    JpegScan {
        exif: if a.exif is Some { a.exif } else { b.exif },
        xmp: if a.xmp is Some { a.xmp } else { b.xmp },
        icc: a.icc + b.icc,
    }
}

proof fn lemma_segment_combine(st: JpegScan, mk: u8, p: Seq<u8>)
    ensures
        jpeg_segment(st, mk, p) == combine(st, jpeg_segment(empty_scan(), mk, p)),
{
    if starts_with(p, exif_header()) {
        assert(p[0] == 0x45);
        assert(!starts_with(p, xmp_header())) by {
            if starts_with(p, xmp_header()) {
                assert(p.take(29)[0] == xmp_header()[0]);
            }
        }
    }
    if mk == 0xE2 && p.len() >= 14 && starts_with(p, icc_header()) && p[12] >= 1 {
        assert(st.icc.push((p[12], p.skip(14))) =~= st.icc + seq![].push((p[12], p.skip(14))));
    }
    assert(st.icc + seq![] =~= st.icc);
}

proof fn lemma_combine_assoc(a: JpegScan, b: JpegScan, c: JpegScan)
    ensures
        combine(combine(a, b), c) == combine(a, combine(b, c)),
{
    assert(a.icc + b.icc + c.icc =~= a.icc + (b.icc + c.icc));
}

/// The scan from any state is that state combined with the scan from the empty state.
pub proof fn lemma_scan_combine(s: Seq<u8>, st: JpegScan)
    ensures
        jpeg_scan(s, st) == combine(st, jpeg_scan(s, empty_scan())),
    decreases s.len(),
{
    if s.len() < 4 || s[0] != 0xFF {
        assert(st.icc + seq![] =~= st.icc);
    } else if standalone(s[1]) {
        lemma_scan_combine(s.skip(2), st);
        lemma_scan_combine(s.skip(2), empty_scan());
    } else if s[1] == 0xDA {
        assert(st.icc + seq![] =~= st.icc);
    } else {
        let len = be16(s[2], s[3]);
        if len < 2 || 2 + len > s.len() {
            assert(st.icc + seq![] =~= st.icc);
        } else {
            let p = s.subrange(4, 2 + len);
            let rest = s.skip(2 + len);
            let e1 = jpeg_segment(empty_scan(), s[1], p);
            lemma_scan_combine(rest, jpeg_segment(st, s[1], p));
            lemma_scan_combine(rest, e1);
            lemma_segment_combine(st, s[1], p);
            lemma_combine_assoc(st, e1, jpeg_scan(rest, empty_scan()));
        }
    }
}

/// The (sequence number, chunk) pairs of the first `n` ICC segments.
pub open spec fn icc_list(icc: Seq<u8>, n: int) -> Seq<(u8, Seq<u8>)>
    decreases n,
{
    if n <= 0 {
        seq![]
    } else {
        icc_list(icc, n - 1).push((n as u8, icc_chunk(icc, n - 1)))
    }
}

proof fn lemma_icc_list_len(icc: Seq<u8>, n: int)
    requires
        n >= 0,
    ensures
        icc_list(icc, n).len() == n,
    decreases n,
{
    if n > 0 {
        lemma_icc_list_len(icc, n - 1);
    }
}

/// The first ICC chunks all fit one segment.
proof fn lemma_icc_chunk_len(icc: Seq<u8>, i: int, count: int)
    requires
        count == icc_count(icc.len() as int),
        0 <= i < count,
    ensures
        icc_chunk(icc, i).len() <= 65519,
        i * 65519 < icc.len(),
{
}

/// Scanning the ICC segments adds their chunks, numbered from 1.
proof fn lemma_scan_icc(icc: Seq<u8>, n: int, count: int, rest: Seq<u8>, st: JpegScan)
    requires
        0 <= n <= count <= 255,
        count == icc_count(icc.len() as int),
    ensures
        jpeg_scan(icc_segments_upto(icc, n, count) + rest, st) == jpeg_scan(
            rest,
            JpegScan { icc: st.icc + icc_list(icc, n), ..st },
        ),
    decreases n,
{
    if n == 0 {
        assert(icc_segments_upto(icc, n, count) + rest =~= rest);
        assert(st.icc + icc_list(icc, n) =~= st.icc);
    } else {
        let p = icc_payload(icc, n - 1, count);
        let seg = app_segment(0xE2, p);
        lemma_icc_chunk_len(icc, n - 1, count);
        assert(icc_segments_upto(icc, n, count) + rest =~= icc_segments_upto(icc, n - 1, count) + (seg
            + rest));
        lemma_scan_icc(icc, n - 1, count, seg + rest, st);
        let st1 = JpegScan { icc: st.icc + icc_list(icc, n - 1), ..st };
        lemma_scan_app(0xE2, p, rest, st1);
        assert(p.take(12) =~= icc_header());
        assert(p[12] == n as u8);
        assert(p.skip(14) =~= icc_chunk(icc, n - 1));
        assert(st1.icc.push((p[12], p.skip(14))) =~= st.icc + icc_list(icc, n));
    }
}

/// The payloads of the first `n` ICC chunks, concatenated.
pub open spec fn chunks_concat(icc: Seq<u8>, n: int) -> Seq<u8>
    decreases n,
{
    if n <= 0 {
        seq![]
    } else {
        chunks_concat(icc, n - 1) + icc_chunk(icc, n - 1)
    }
}

proof fn lemma_chunks_concat(icc: Seq<u8>, n: int, count: int)
    requires
        count == icc_count(icc.len() as int),
        0 <= n <= count,
    ensures
        chunks_concat(icc, n) == icc.take(if n * 65519 < icc.len() { n * 65519 } else { icc.len() as int }),
    decreases n,
{
    if n == 0 {
        assert(icc.take(0) =~= seq![]);
    } else {
        lemma_chunks_concat(icc, n - 1, count);
        lemma_icc_chunk_len(icc, n - 1, count);
        let hi = if n * 65519 < icc.len() { n * 65519 } else { icc.len() as int };
        assert(icc.take((n - 1) * 65519) + icc.subrange((n - 1) * 65519, hi) =~= icc.take(hi));
    }
}

proof fn lemma_key_concat(icc: Seq<u8>, n: int, k: int)
    requires
        0 <= n <= 255,
    ensures
        key_concat(icc_list(icc, n), k) == (if 1 <= k <= n { icc_chunk(icc, k - 1) } else { seq![] }),
    decreases n,
{
    if n > 0 {
        let l = icc_list(icc, n);
        lemma_key_concat(icc, n - 1, k);
        assert(l.drop_last() =~= icc_list(icc, n - 1));
        assert(l.last() == (n as u8, icc_chunk(icc, n - 1)));
        if k == n {
            assert(seq![] + icc_chunk(icc, n - 1) =~= icc_chunk(icc, n - 1));
        } else {
            assert(key_concat(l, k) =~= key_concat(icc_list(icc, n - 1), k));
        }
    } else {
        assert(key_concat(icc_list(icc, n), k) =~= seq![]);
    }
}

proof fn lemma_join_keys(icc: Seq<u8>, count: int, n: int)
    requires
        0 <= count <= 255,
        0 <= n,
    ensures
        join_keys(icc_list(icc, count), n) == chunks_concat(icc, if n < count { n } else { count }),
    decreases n,
{
    if n > 0 {
        lemma_join_keys(icc, count, n - 1);
        lemma_key_concat(icc, count, n);
        if n > count {
            assert(join_keys(icc_list(icc, count), n) =~= join_keys(icc_list(icc, count), n - 1));
        }
    }
}

/// The parts that `inject_jpeg` writes in full.
pub open spec fn jpeg_fits(m: MetaView) -> bool {
    &&& (m.exif matches Some(e) ==> e.len() + 8 <= 0xFFFF)
    &&& (m.xmp matches Some(x) ==> x.len() + 31 <= 0xFFFF)
    &&& (m.icc matches Some(c) ==> c.len() > 0 && icc_count(c.len() as int) <= 255)
}

pub open spec fn with_exif(st: JpegScan, e: Option<Seq<u8>>) -> JpegScan {
    match e {
        Some(v) => JpegScan { exif: Some(v), ..st },
        None => st,
    }
}

pub open spec fn with_xmp(st: JpegScan, x: Option<Seq<u8>>) -> JpegScan {
    match x {
        Some(v) => JpegScan { xmp: Some(v), ..st },
        None => st,
    }
}

pub open spec fn with_icc(st: JpegScan, c: Option<Seq<u8>>) -> JpegScan {
    match c {
        Some(c) => JpegScan { icc: st.icc + icc_list(c, icc_count(c.len() as int)), ..st },
        None => st,
    }
}

proof fn lemma_exif_step(v: Option<Seq<u8>>, tail: Seq<u8>)
    requires
        v matches Some(e) ==> e.len() + 8 <= 0xFFFF,
    ensures
        jpeg_scan(exif_segment(v) + tail, empty_scan()) == jpeg_scan(tail, with_exif(empty_scan(), v)),
{
    if let Some(e) = v {
        let p = exif_header() + e;
        lemma_scan_app(0xE1, p, tail, empty_scan());
        assert(p.take(6) =~= exif_header());
        assert(p.skip(6) =~= e);
    } else {
        assert(exif_segment(v) + tail =~= tail);
    }
}

proof fn lemma_xmp_step(v: Option<Seq<u8>>, tail: Seq<u8>, st: JpegScan)
    requires
        v matches Some(x) ==> x.len() + 31 <= 0xFFFF,
        st.xmp is None,
    ensures
        jpeg_scan(xmp_segment(v) + tail, st) == jpeg_scan(tail, with_xmp(st, v)),
{
    if let Some(x) = v {
        let p = xmp_header() + x;
        lemma_scan_app(0xE1, p, tail, st);
        assert(p.take(29) =~= xmp_header());
        assert(p.skip(29) =~= x);
        assert(!starts_with(p, exif_header())) by {
            assert(p[0] == 0x68);
            if starts_with(p, exif_header()) {
                assert(p.take(6)[0] == exif_header()[0]);
            }
        }
    } else {
        assert(xmp_segment(v) + tail =~= tail);
    }
}

proof fn lemma_icc_step(v: Option<Seq<u8>>, tail: Seq<u8>, st: JpegScan)
    requires
        v matches Some(c) ==> c.len() > 0 && icc_count(c.len() as int) <= 255,
    ensures
        jpeg_scan(icc_segments(v) + tail, st) == jpeg_scan(tail, with_icc(st, v)),
{
    if let Some(c) = v {
        let count = icc_count(c.len() as int);
        lemma_scan_icc(c, count, count, tail, st);
    } else {
        assert(icc_segments(v) + tail =~= tail);
    }
}

/// The ICC profile reassembles from its numbered chunks.
proof fn lemma_icc_join(c: Seq<u8>)
    requires
        c.len() > 0,
        icc_count(c.len() as int) <= 255,
    ensures
        icc_list(c, icc_count(c.len() as int)).len() > 0,
        join_keys(icc_list(c, icc_count(c.len() as int)), 255) == c,
{
    let count = icc_count(c.len() as int);
    lemma_icc_list_len(c, count);
    lemma_join_keys(c, count, 255);
    lemma_chunks_concat(c, count, count);
    assert(c.take(c.len() as int) =~= c);
    assert(count * 65519 >= c.len());
}

/// Round trip: when the input JPEG carries no metadata segments of its own,
/// `extract_jpeg` reads back from the output of `inject_jpeg` exactly the
/// metadata that was injected (each part within the limits of its segment
/// format, and the ICC profile not empty).
pub proof fn lemma_jpeg_roundtrip(d: Seq<u8>, m: MetaView)
    requires
        d.len() >= 2,
        d[0] == 0xFF,
        d[1] == 0xD8,
        jpeg_scan(d.skip(2), empty_scan()) == empty_scan(),
        jpeg_fits(m),
    ensures
        jpeg_metadata(jpeg_injected(d, m)) == m,
{
    let out = jpeg_injected(d, m);
    let e = exif_segment(m.exif);
    let x = xmp_segment(m.xmp);
    let i = icc_segments(m.icc);
    let rest = d.skip(2);
    assert(out =~= d.take(2) + (e + (x + (i + rest))));
    assert(out.skip(2) =~= e + (x + (i + rest)));
    let st1 = with_exif(empty_scan(), m.exif);
    let st2 = with_xmp(st1, m.xmp);
    let st3 = with_icc(st2, m.icc);
    lemma_exif_step(m.exif, x + (i + rest));
    lemma_xmp_step(m.xmp, i + rest, st1);
    lemma_icc_step(m.icc, rest, st2);
    lemma_scan_combine(rest, st3);
    assert(st3.icc + seq![] =~= st3.icc);
    assert(jpeg_scan(out.skip(2), empty_scan()) == st3);
    if let Some(c) = m.icc {
        lemma_icc_join(c);
        assert(st3.icc =~= icc_list(c, icc_count(c.len() as int)));
    }
    if out.len() < 4 {
        assert(m.exif is None && m.xmp is None && m.icc is None) by {
            if m.icc is Some {
                lemma_icc_join(m.icc.unwrap());
                assert(i.len() > 0);
            }
        }
        assert(out =~= d);
    } else {
        assert(out[0] == 0xFF && out[1] == 0xD8);
    }
}

} // verus!
