//! PNG metadata: `iCCP` (zlib-compressed ICC profile), `eXIf`, and `iTXt`
//! with the XMP keyword; and the CRC-32 that every chunk carries.

use vstd::prelude::*;
use crate::bytes::{be32_at, be32_bytes, find_zero, find_zero_exec, find_zero_in_suffix, lemma_find_zero_facts, push_all, push_be32, read_be32, copy_range};
use crate::error::ImzipError;
use crate::zlib::{zlib_inflate, zlib_deflate, zlib_decompress, zlib_compress};
use super::{Metadata, MetaView, empty_meta, opt_view};

verus! {

pub open spec fn png_sig() -> Seq<u8> {
    seq![0x89u8, 0x50, 0x4e, 0x47, 0x0d, 0x0a, 0x1a, 0x0a]
}

pub open spec fn ctype(a: u8, b: u8, c: u8, d: u8) -> Seq<u8> {
    seq![a, b, c, d]
}

pub open spec fn iccp_type() -> Seq<u8> { ctype(0x69, 0x43, 0x43, 0x50) }
pub open spec fn exif_type() -> Seq<u8> { ctype(0x65, 0x58, 0x49, 0x66) }
pub open spec fn itxt_type() -> Seq<u8> { ctype(0x69, 0x54, 0x58, 0x74) }
pub open spec fn iend_type() -> Seq<u8> { ctype(0x49, 0x45, 0x4e, 0x44) }
pub open spec fn idat_type() -> Seq<u8> { ctype(0x49, 0x44, 0x41, 0x54) }

/// `ICC Profile`, the keyword of the `iCCP` chunk this library writes and reads.
pub open spec fn iccp_keyword() -> Seq<u8> {
    seq![0x49u8, 0x43, 0x43, 0x20, 0x50, 0x72, 0x6f, 0x66, 0x69, 0x6c, 0x65]
}

/// `XML:com.adobe.xmp`, the keyword of an XMP `iTXt` chunk.
pub open spec fn xmp_keyword() -> Seq<u8> {
    seq![0x58u8, 0x4d, 0x4c, 0x3a, 0x63, 0x6f, 0x6d, 0x2e, 0x61, 0x64, 0x6f, 0x62, 0x65, 0x2e, 0x78, 0x6d, 0x70]
}

fn iccp_keyword_bytes() -> (v: Vec<u8>)
    ensures
        v@ == iccp_keyword(),
{
    let v = vec![0x49u8, 0x43, 0x43, 0x20, 0x50, 0x72, 0x6f, 0x66, 0x69, 0x6c, 0x65];
    assert(v@ =~= iccp_keyword());
    v
}

fn xmp_keyword_bytes() -> (v: Vec<u8>)
    ensures
        v@ == xmp_keyword(),
{
    let v = vec![0x58u8, 0x4d, 0x4c, 0x3a, 0x63, 0x6f, 0x6d, 0x2e, 0x61, 0x64, 0x6f, 0x62, 0x65, 0x2e,
        0x78, 0x6d, 0x70];
    assert(v@ =~= xmp_keyword());
    v
}

// ---------------------------------------------------------------- CRC-32

/// `k` rounds of the bit-reflected CRC-32 division by the IEEE polynomial 0xEDB88320.
pub open spec fn crc_rounds(c: u32, k: nat) -> u32
    decreases k,
{
    if k == 0 {
        c
    } else {
        let c2 = crc_rounds(c, (k - 1) as nat);
        if c2 & 1 != 0 {
            0xEDB8_8320u32 ^ (c2 >> 1u32)
        } else {
            c2 >> 1u32
        }
    }
}

/// The CRC table entry for byte value `i`.
pub open spec fn crc_table(i: u32) -> u32 {
    crc_rounds(i, 8)
}

/// The CRC register after feeding `data` to register value `crc`.
pub open spec fn crc_update(crc: u32, data: Seq<u8>) -> u32
    decreases data.len(),
{
    if data.len() == 0 {
        crc
    } else {
        let c = crc_update(crc, data.drop_last());
        crc_table((c ^ (data.last() as u32)) & 0xFF) ^ (c >> 8u32)
    }
}

/// CRC-32 (IEEE 802.3, as PNG uses): initial value and final XOR 0xFFFFFFFF.
pub open spec fn crc32_spec(data: Seq<u8>) -> u32 {
    crc_update(0xFFFF_FFFF, data) ^ 0xFFFF_FFFF
}

fn crc_table_exec() -> (t: Vec<u32>)
    ensures
        t@.len() == 256,
        forall|i: int| 0 <= i < 256 ==> #[trigger] t@[i] == crc_table(i as u32),
{
    let mut t: Vec<u32> = Vec::new();
    let mut i: u32 = 0;
    while i < 256
        invariant
            i <= 256,
            t@.len() == i,
            forall|j: int| 0 <= j < i ==> #[trigger] t@[j] == crc_table(j as u32),
        decreases 256 - i,
    {
        let mut c: u32 = i;
        let mut k: u32 = 0;
        while k < 8
            invariant
                k <= 8,
                c == crc_rounds(i, k as nat),
            decreases 8 - k,
        {
            c = if c & 1 != 0 {
                0xEDB8_8320u32 ^ (c >> 1)
            } else {
                c >> 1
            };
            k += 1;
        }
        t.push(c);
        i += 1;
    }
    t
}

/// CRC-32 (IEEE) as used by PNG chunks.
pub fn crc32(data: &[u8]) -> (c: u32)
    ensures
        c == crc32_spec(data@),
{
    let table = crc_table_exec();
    let mut crc: u32 = 0xFFFF_FFFF;
    let mut i: usize = 0;
    while i < data.len()
        invariant
            i <= data@.len(),
            table@.len() == 256,
            forall|j: int| 0 <= j < 256 ==> #[trigger] table@[j] == crc_table(j as u32),
            crc == crc_update(0xFFFF_FFFF, data@.take(i as int)),
        decreases data.len() - i,
    {
        let b = data[i] as u32;
        let idx = (crc ^ b) & 0xFF;
        assert(idx < 256) by (bit_vector)
            requires
                idx == (crc ^ b) & 0xFF,
        ;
        assert(data@.take(i + 1).drop_last() =~= data@.take(i as int));
        assert(data@.take(i + 1).last() == data@[i as int]);
        crc = table[idx as usize] ^ (crc >> 8);
        i += 1;
    }
    assert(data@.take(data@.len() as int) =~= data@);
    crc ^ 0xFFFF_FFFF
}

// ---------------------------------------------------------------- chunks

/// The ICC profile of an `iCCP` payload: keyword `ICC Profile`, NUL,
/// compression method 0, then a zlib stream.
pub open spec fn iccp_profile(p: Seq<u8>) -> Option<Seq<u8>> {
    match find_zero(p, 0) {
        None => None,
        Some(nul) => if p.take(nul) != iccp_keyword() {
            None
        } else {
            let rest = p.skip(nul + 1);
            if rest.len() == 0 || rest[0] != 0 {
                None
            } else {
                zlib_inflate(rest.skip(1))
            }
        },
    }
}

/// The XMP packet of an uncompressed `iTXt` payload with the XMP keyword:
/// keyword, NUL, compression flag 0, method, language tag, NUL, translated
/// keyword, NUL, text.
pub open spec fn itxt_xmp(p: Seq<u8>) -> Option<Seq<u8>> {
    match find_zero(p, 0) {
        None => None,
        Some(nul) => if p.take(nul) != xmp_keyword() {
            None
        } else {
            let rest = p.skip(nul + 1);
            if rest.len() < 2 || rest[0] != 0 {
                None
            } else {
                let r2 = rest.skip(2);
                match find_zero(r2, 0) {
                    None => None,
                    Some(l) => {
                        let r3 = r2.skip(l + 1);
                        match find_zero(r3, 0) {
                            None => None,
                            Some(t) => Some(r3.skip(t + 1)),
                        }
                    },
                }
            }
        },
    }
}

/// The effect of one chunk of type `t` with payload `p`.
pub open spec fn png_step(m: MetaView, t: Seq<u8>, p: Seq<u8>) -> MetaView {
    if t == iccp_type() {
        match iccp_profile(p) {
            Some(icc) => MetaView { icc: Some(icc), ..m },
            None => m,
        }
    } else if t == exif_type() {
        MetaView { exif: Some(p), ..m }
    } else if t == itxt_type() {
        match itxt_xmp(p) {
            Some(x) => MetaView { xmp: Some(x), ..m },
            None => m,
        }
    } else {
        m
    }
}

/// The scan of the chunks in `s` (the bytes after the signature). It stops
/// at `IEND` or at a chunk that runs past the end; a later chunk of a kind
/// replaces an earlier one.
pub open spec fn png_scan(s: Seq<u8>, m: MetaView) -> MetaView
    decreases s.len(),
{
    if s.len() < 12 {
        m
    } else {
        let len = be32_at(s, 0);
        if 12 + len > s.len() {
            m
        } else {
            let t = s.subrange(4, 8);
            if t == iend_type() {
                m
            } else {
                png_scan(s.skip(12 + len), png_step(m, t, s.subrange(8, 8 + len)))
            }
        }
    }
}

/// The metadata that `extract_png` finds in `d`.
pub open spec fn png_metadata(d: Seq<u8>) -> MetaView {
    if d.len() < 8 || d.take(8) != png_sig() {
        empty_meta()
    } else {
        png_scan(d.skip(8), empty_meta())
    }
}

fn has_sig(data: &[u8]) -> (b: bool)
    ensures
        b == (data@.len() >= 8 && data@.take(8) == png_sig()),
{
    if data.len() < 8 {
        return false;
    }
    let b = data[0] == 0x89 && data[1] == 0x50 && data[2] == 0x4e && data[3] == 0x47 && data[4] == 0x0d
        && data[5] == 0x0a && data[6] == 0x1a && data[7] == 0x0a;
    assert(b ==> data@.take(8) =~= png_sig());
    assert(data@.take(8) == png_sig() ==> data@.take(8)[0] == data@[0] && data@.take(8)[1] == data@[1]
        && data@.take(8)[2] == data@[2] && data@.take(8)[3] == data@[3] && data@.take(8)[4] == data@[4]
        && data@.take(8)[5] == data@[5] && data@.take(8)[6] == data@[6] && data@.take(8)[7] == data@[7]);
    b
}

fn type_is(data: &[u8], i: usize, a: u8, b: u8, c: u8, d: u8) -> (r: bool)
    requires
        i + 4 <= data@.len(),
    ensures
        r == (data@.subrange(i as int, i + 4) == ctype(a, b, c, d)),
{
    let r = data[i] == a && data[i + 1] == b && data[i + 2] == c && data[i + 3] == d;
    assert(r ==> data@.subrange(i as int, i + 4) =~= ctype(a, b, c, d));
    assert(data@.subrange(i as int, i + 4)[0] == data@[i as int]);
    assert(data@.subrange(i as int, i + 4)[1] == data@[i + 1]);
    assert(data@.subrange(i as int, i + 4)[2] == data@[i + 2]);
    assert(data@.subrange(i as int, i + 4)[3] == data@[i + 3]);
    r
}

fn parse_iccp(payload: &[u8]) -> (r: Option<Vec<u8>>)
    ensures
        opt_view(r) == iccp_profile(payload@),
{
    let nul = match find_zero_exec(payload, 0) {
        Some(n) => n,
        None => return None,
    };
    proof {
        lemma_find_zero_facts(payload@, 0);
    }
    let kw = iccp_keyword_bytes();
    if nul != kw.len() || !crate::bytes::starts_with_at(payload, 0, kw.as_slice()) {
        assert(nul == 11 ==> payload@.take(11) == payload@.skip(0).take(11));
        assert(payload@.skip(0) =~= payload@);
        return None;
    }
    assert(payload@.skip(0) =~= payload@);
    if nul + 1 >= payload.len() || payload[nul + 1] != 0 {
        assert(nul + 1 < payload@.len() ==> payload@.skip(nul + 1)[0] == payload@[nul + 1]);
        return None;
    }
    assert(payload@.skip(nul + 1)[0] == payload@[nul + 1]);
    assert(payload@.skip(nul + 1).skip(1) =~= payload@.subrange(nul + 2, payload@.len() as int));
    let rest = copy_range(payload, nul + 2, payload.len());
    zlib_decompress(rest.as_slice())
}

fn parse_itxt_xmp(payload: &[u8]) -> (r: Option<Vec<u8>>)
    ensures
        opt_view(r) == itxt_xmp(payload@),
{
    let nul = match find_zero_exec(payload, 0) {
        Some(n) => n,
        None => return None,
    };
    proof {
        lemma_find_zero_facts(payload@, 0);
    }
    let kw = xmp_keyword_bytes();
    assert(payload@.skip(0) =~= payload@);
    if nul != kw.len() || !crate::bytes::starts_with_at(payload, 0, kw.as_slice()) {
        return None;
    }
    let ghost rest = payload@.skip(nul + 1);
    if payload.len() - (nul + 1) < 2 || payload[nul + 1] != 0 {
        assert(rest.len() >= 1 ==> rest[0] == payload@[nul + 1]);
        return None;
    }
    assert(rest[0] == payload@[nul + 1]);
    // compression flag + method
    let from = nul + 3;
    let ghost r2 = rest.skip(2);
    assert(r2 =~= payload@.skip(from as int));
    let lang_end = match find_zero_in_suffix(payload, from) {
        Some(n) => n,
        None => return None,
    };
    let from2 = from + lang_end + 1;
    let ghost r3 = r2.skip(lang_end + 1);
    assert(r3 =~= payload@.skip(from2 as int));
    let t_end = match find_zero_in_suffix(payload, from2) {
        Some(n) => n,
        None => return None,
    };
    assert(r3.skip(t_end + 1) =~= payload@.subrange(from2 + t_end + 1, payload@.len() as int));
    Some(copy_range(payload, from2 + t_end + 1, payload.len()))
}

/// Extracts ICC (`iCCP`), EXIF (`eXIf`) and XMP (`iTXt` with the XMP
/// keyword) from a PNG. The scan stops at `IEND`; a later chunk of a kind
/// replaces an earlier one; an `iCCP` whose stream does not decompress, or
/// an `iTXt` that is not an uncompressed XMP packet, is skipped.
pub fn extract_png(data: &[u8]) -> (m: Metadata)
    ensures
        m@ == png_metadata(data@),
{
    let mut meta = Metadata::default();
    if !has_sig(data) {
        return meta;
    }
    let mut pos: usize = 8;
    while pos <= data.len() && data.len() - pos >= 12
        invariant
            8 <= pos,
            data@.len() == data.len(),
            png_metadata(data@) == png_scan(
                if pos <= data@.len() { data@.skip(pos as int) } else { seq![] },
                meta@,
            ),
        ensures
            png_metadata(data@) == meta@,
        decreases data.len() - pos,
    {
        let ghost s = data@.skip(pos as int);
        let len = read_be32(data, pos) as usize;
        assert(be32_at(s, 0) == be32_at(data@, pos as int));
        if len > data.len() - pos - 12 {
            break;
        }
        let ghost p = s.subrange(8, 8 + len);
        assert(s.subrange(4, 8) =~= data@.subrange(pos + 4, pos + 8));
        assert(p =~= data@.subrange(pos + 8, pos + 8 + len));
        assert(s.skip(12 + len) =~= data@.skip(pos + 12 + len));
        let ghost before = meta@;
        if type_is(data, pos + 4, 0x49, 0x45, 0x4e, 0x44) {
            break;
        }
        let payload = copy_range(data, pos + 8, pos + 8 + len);
        if type_is(data, pos + 4, 0x69, 0x43, 0x43, 0x50) {
            if let Some(icc) = parse_iccp(payload.as_slice()) {
                meta.icc = Some(icc);
            }
        } else if type_is(data, pos + 4, 0x65, 0x58, 0x49, 0x66) {
            meta.exif = Some(payload);
        } else if type_is(data, pos + 4, 0x69, 0x54, 0x58, 0x74) {
            if let Some(xmp) = parse_itxt_xmp(payload.as_slice()) {
                meta.xmp = Some(xmp);
            }
        }
        assert(meta@ == png_step(before, s.subrange(4, 8), p));
        pos += 12 + len;
    }
    meta
}

} // verus!

verus! {

/// One PNG chunk: big-endian length, type, payload, CRC-32 of type and payload.
pub open spec fn png_chunk(t: Seq<u8>, p: Seq<u8>) -> Seq<u8> {
    be32_bytes(p.len() as int % 0x1_0000_0000) + t + p + be32_bytes(crc32_spec(t + p) as int)
}

/// Appends one chunk (length, type, payload, CRC) to `out`.
pub fn write_png_chunk(out: &mut Vec<u8>, ctype: &[u8; 4], payload: &[u8])
    ensures
        final(out)@ == old(out)@ + png_chunk(ctype@, payload@),
{
    let ghost start = out@;
    let n = ((payload.len() as u64) % 0x1_0000_0000) as u32;
    push_be32(out, n);
    push_all(out, ctype.as_slice());
    push_all(out, payload);
    let mut crc_input: Vec<u8> = Vec::new();
    push_all(&mut crc_input, ctype.as_slice());
    push_all(&mut crc_input, payload);
    let c = crc32(crc_input.as_slice());
    push_be32(out, c);
    assert(out@ =~= start + png_chunk(ctype@, payload@));
}

/// The offset of the first `IDAT` chunk, walking the chunks of `s` (which
/// starts at offset `base` of the file).
pub open spec fn png_find_idat(s: Seq<u8>, base: int) -> Option<int>
    decreases s.len(),
{
    if s.len() < 12 {
        None
    } else if s.subrange(4, 8) == idat_type() {
        Some(base)
    } else {
        let len = be32_at(s, 0);
        if 12 + len > s.len() {
            None
        } else {
            png_find_idat(s.skip(12 + len), base + 12 + len)
        }
    }
}

/// The `iCCP` payload written for a compressed profile: keyword, NUL, method 0, stream.
pub open spec fn iccp_payload(comp: Seq<u8>) -> Seq<u8> {
    iccp_keyword() + seq![0u8, 0u8] + comp
}

/// The `iTXt` payload written for an XMP packet: keyword, NUL, flag 0,
/// method 0, empty language tag, empty translated keyword, packet.
pub open spec fn itxt_payload(x: Seq<u8>) -> Seq<u8> {
    xmp_keyword() + seq![0u8, 0u8, 0u8, 0u8, 0u8] + x
}

/// The compressed profile that `inject_png` writes, if any.
pub open spec fn deflated(icc: Option<Seq<u8>>) -> Seq<u8> {
    match icc {
        Some(c) => zlib_deflate(c),
        None => seq![],
    }
}

/// The chunks that `inject_png` inserts: `iCCP` (with the compressed profile
/// `comp`), `eXIf`, `iTXt`, each when the part is present.
pub open spec fn png_new_chunks(m: MetaView, comp: Seq<u8>) -> Seq<u8> {
    (if m.icc is Some { png_chunk(iccp_type(), iccp_payload(comp)) } else { seq![] }) + (match m.exif {
        Some(e) => png_chunk(exif_type(), e),
        None => seq![],
    }) + (match m.xmp {
        Some(x) => png_chunk(itxt_type(), itxt_payload(x)),
        None => seq![],
    })
}

/// The PNG that `inject_png` writes: the new chunks inserted at offset `at`,
/// where the first `IDAT` chunk starts.
pub open spec fn png_injected(d: Seq<u8>, m: MetaView, comp: Seq<u8>, at: int) -> Seq<u8> {
    d.take(at) + png_new_chunks(m, comp) + d.skip(at)
}

fn find_idat(data: &[u8]) -> (r: Option<usize>)
    requires
        data@.len() >= 8,
    ensures
        r matches Some(at) ==> png_find_idat(data@.skip(8), 8) == Some(at as int) && 8 <= at <= data@.len(),
        r is None ==> png_find_idat(data@.skip(8), 8) is None,
{
    let mut pos: usize = 8;
    while pos <= data.len() && data.len() - pos >= 12
        invariant
            8 <= pos,
            data@.len() == data.len(),
            png_find_idat(data@.skip(8), 8) == (if pos <= data@.len() {
                png_find_idat(data@.skip(pos as int), pos as int)
            } else {
                None
            }),
        decreases data.len() - pos,
    {
        let ghost s = data@.skip(pos as int);
        assert(s.subrange(4, 8) =~= data@.subrange(pos + 4, pos + 8));
        if type_is(data, pos + 4, 0x49, 0x44, 0x41, 0x54) {
            return Some(pos);
        }
        let len = read_be32(data, pos) as usize;
        assert(be32_at(s, 0) == be32_at(data@, pos as int));
        if len > data.len() - pos - 12 {
            return None;
        }
        assert(s.skip(12 + len) =~= data@.skip(pos + 12 + len));
        pos += 12 + len;
    }
    None
}

/// Inserts `iCCP`/`eXIf`/`iTXt` chunks right before the first `IDAT`.
/// The ICC profile is zlib-compressed (default level).
pub fn inject_png(data: &[u8], meta: &Metadata) -> (r: Result<Vec<u8>, ImzipError>)
    ensures
        !(data@.len() >= 8 && data@.take(8) == png_sig()) ==> (r matches Err(ImzipError::Metadata(msg))
            && msg@ == "invalid PNG: bad signature"@),
        (data@.len() >= 8 && data@.take(8) == png_sig() && png_find_idat(data@.skip(8), 8) is None) ==> (
        r matches Err(ImzipError::Metadata(msg)) && msg@ == "invalid PNG: no IDAT chunk"@),
        r matches Ok(out) ==> data@.len() >= 8 && data@.take(8) == png_sig() && (png_find_idat(
            data@.skip(8),
            8,
        ) matches Some(at) && out@ == png_injected(data@, meta@, deflated(meta@.icc), at)),
        (data@.len() >= 8 && data@.take(8) == png_sig() && png_find_idat(data@.skip(8), 8) is Some) ==> r is Ok,
        r matches Ok(_) ==> (meta@.icc matches Some(c) ==> zlib_inflate(zlib_deflate(c)) == Some(c)),
        r matches Err(e) ==> e is Metadata,
{
    if !has_sig(data) {
        return Err(ImzipError::metadata(crate::text::string_from("invalid PNG: bad signature")));
    }
    let insert_at = match find_idat(data) {
        Some(at) => at,
        None => {
            return Err(ImzipError::metadata(crate::text::string_from("invalid PNG: no IDAT chunk")));
        },
    };
    let ghost m = meta@;
    let mut chunks: Vec<u8> = Vec::new();
    if let Some(icc) = &meta.icc {
        let mut payload = iccp_keyword_bytes();
        payload.push(0);  // keyword separator
        payload.push(0);  // compression method: zlib deflate
        let compressed = zlib_compress(icc.as_slice());
        push_all(&mut payload, compressed.as_slice());
        assert(payload@ =~= iccp_payload(deflated(m.icc)));
        let t: [u8; 4] = [0x69, 0x43, 0x43, 0x50];
        assert(t@ =~= iccp_type());
        write_png_chunk(&mut chunks, &t, payload.as_slice());
    }
    let ghost c1 = chunks@;
    if let Some(exif) = &meta.exif {
        let t: [u8; 4] = [0x65, 0x58, 0x49, 0x66];
        assert(t@ =~= exif_type());
        write_png_chunk(&mut chunks, &t, exif.as_slice());
    }
    let ghost c2 = chunks@;
    if let Some(xmp) = &meta.xmp {
        let mut payload = xmp_keyword_bytes();
        payload.push(0);  // keyword separator
        payload.push(0);  // compression flag: uncompressed
        payload.push(0);  // compression method
        payload.push(0);  // language tag (empty)
        payload.push(0);  // translated keyword (empty)
        push_all(&mut payload, xmp.as_slice());
        assert(payload@ =~= itxt_payload(xmp@));
        let t: [u8; 4] = [0x69, 0x54, 0x58, 0x74];
        assert(t@ =~= itxt_type());
        write_png_chunk(&mut chunks, &t, payload.as_slice());
    }
    assert(chunks@ =~= png_new_chunks(m, deflated(m.icc))) by {
        if m.icc is None {
            assert(c1 =~= seq![]);
        }
    }
    let mut out: Vec<u8> = Vec::new();
    crate::bytes::push_range(&mut out, data, 0, insert_at);
    push_all(&mut out, chunks.as_slice());
    crate::bytes::push_range(&mut out, data, insert_at, data.len());
    assert(out@ =~= png_injected(data@, m, deflated(m.icc), insert_at as int));
    Ok(out)
}

} // verus!

verus! {

/// Walking to the first `IDAT` passes no `IEND`.
pub open spec fn no_iend_before_idat(s: Seq<u8>) -> bool
    decreases s.len(),
{
    if s.len() < 12 {
        true
    } else if s.subrange(4, 8) == idat_type() {
        true
    } else if s.subrange(4, 8) == iend_type() {
        false
    } else {
        let len = be32_at(s, 0);
        if 12 + len > s.len() {
            true
        } else {
            no_iend_before_idat(s.skip(12 + len))
        }
    }
}

/// `a` is exactly a run of complete chunks, none of them `IEND`.
pub open spec fn tiled(a: Seq<u8>) -> bool
    decreases a.len(),
{
    if a.len() == 0 {
        true
    } else if a.len() < 12 {
        false
    } else {
        let len = be32_at(a, 0);
        12 + len <= a.len() && a.subrange(4, 8) != iend_type() && tiled(a.skip(12 + len))
    }
}

/// Later metadata overrides earlier: the fields of `b` that are present win.
pub open spec fn over(a: MetaView, b: MetaView) -> MetaView {
    MetaView {
        icc: if b.icc is Some { b.icc } else { a.icc },
        exif: if b.exif is Some { b.exif } else { a.exif },
        xmp: if b.xmp is Some { b.xmp } else { a.xmp },
    }
}

proof fn lemma_step_over(m: MetaView, t: Seq<u8>, p: Seq<u8>)
    ensures
        png_step(m, t, p) == over(m, png_step(empty_meta(), t, p)),
{
}

/// A scan from any state is that state overridden by the scan from the empty state.
proof fn lemma_png_scan_over(s: Seq<u8>, m: MetaView)
    ensures
        png_scan(s, m) == over(m, png_scan(s, empty_meta())),
    decreases s.len(),
{
    if s.len() >= 12 {
        let len = be32_at(s, 0);
        if 12 + len <= s.len() && s.subrange(4, 8) != iend_type() {
            let t = s.subrange(4, 8);
            let p = s.subrange(8, 8 + len);
            let rest = s.skip(12 + len);
            lemma_png_scan_over(rest, png_step(m, t, p));
            lemma_png_scan_over(rest, png_step(empty_meta(), t, p));
            lemma_step_over(m, t, p);
        }
    }
}

/// Scanning a run of complete chunks and then anything.
proof fn lemma_scan_tiled(a: Seq<u8>, x: Seq<u8>, m: MetaView)
    requires
        tiled(a),
    ensures
        png_scan(a + x, m) == png_scan(x, png_scan(a, m)),
    decreases a.len(),
{
    if a.len() == 0 {
        assert(a + x =~= x);
    } else {
        let len = be32_at(a, 0);
        let t = a.subrange(4, 8);
        let p = a.subrange(8, 8 + len);
        let ax = a + x;
        assert(be32_at(ax, 0) == len);
        assert(ax.subrange(4, 8) =~= t);
        assert(ax.subrange(8, 8 + len) =~= p);
        assert(ax.skip(12 + len) =~= a.skip(12 + len) + x);
        lemma_scan_tiled(a.skip(12 + len), x, png_step(m, t, p));
    }
}

/// The chunks before the first `IDAT` form a complete run.
proof fn lemma_find_tiled(s: Seq<u8>, base: int, at: int)
    requires
        png_find_idat(s, base) == Some(at),
        no_iend_before_idat(s),
    ensures
        base <= at <= base + s.len() - 12,
        tiled(s.take(at - base)),
        s.skip(at - base).subrange(4, 8) == idat_type(),
    decreases s.len(),
{
    if s.subrange(4, 8) == idat_type() {
        assert(s.take(0) =~= seq![]);
        assert(s.skip(0) =~= s);
    } else {
        let len = be32_at(s, 0);
        let r = s.skip(12 + len);
        lemma_find_tiled(r, base + 12 + len, at);
        let a = s.take(at - base);
        assert(be32_at(a, 0) == len);
        assert(a.subrange(4, 8) =~= s.subrange(4, 8));
        assert(a.skip(12 + len) =~= r.take(at - base - 12 - len));
        assert(s.skip(at - base) =~= r.skip(at - base - 12 - len));
    }
}

/// Scanning one written chunk applies it.
#[verifier::spinoff_prover]
#[verifier::rlimit(40)]
proof fn lemma_scan_chunk(t: Seq<u8>, p: Seq<u8>, x: Seq<u8>, m: MetaView)
    requires
        t.len() == 4,
        t != iend_type(),
        p.len() < 0x1_0000_0000,
    ensures
        png_scan(png_chunk(t, p) + x, m) == png_scan(x, png_step(m, t, p)),
{
    let c = png_chunk(t, p);
    let s = c + x;
    let n = p.len() as int;
    assert(s.subrange(0, 4) =~= be32_bytes(n));
    crate::bytes::lemma_be32_roundtrip(n, s, 0);
    assert(s.subrange(4, 8) =~= t);
    assert(s.subrange(8, 8 + n) =~= p);
    assert(s.skip(12 + n) =~= x);
}

proof fn lemma_keyword_nonzero()
    ensures
        forall|j: int| 0 <= j < iccp_keyword().len() ==> iccp_keyword()[j] != 0,
        forall|j: int| 0 <= j < xmp_keyword().len() ==> xmp_keyword()[j] != 0,
{
}

proof fn lemma_iccp_parse(comp: Seq<u8>)
    ensures
        iccp_profile(iccp_payload(comp)) == zlib_inflate(comp),
{
    let p = iccp_payload(comp);
    lemma_keyword_nonzero();
    assert(p =~= iccp_keyword() + (seq![0u8, 0u8] + comp));
    crate::bytes::lemma_find_zero_after(iccp_keyword(), seq![0u8, 0u8] + comp, 0);
    assert(p.take(11) =~= iccp_keyword());
    assert(p.skip(12) =~= seq![0u8] + comp);
    assert(p.skip(12).skip(1) =~= comp);
}

proof fn lemma_itxt_parse(x: Seq<u8>)
    ensures
        itxt_xmp(itxt_payload(x)) == Some(x),
{
    let p = itxt_payload(x);
    lemma_keyword_nonzero();
    assert(p =~= xmp_keyword() + (seq![0u8, 0u8, 0u8, 0u8, 0u8] + x));
    crate::bytes::lemma_find_zero_after(xmp_keyword(), seq![0u8, 0u8, 0u8, 0u8, 0u8] + x, 0);
    assert(p.take(17) =~= xmp_keyword());
    let rest = p.skip(18);
    assert(rest =~= seq![0u8, 0u8, 0u8, 0u8] + x);
    let r2 = rest.skip(2);
    assert(r2 =~= seq![0u8, 0u8] + x);
    assert(find_zero(r2, 0) == Some(0int));
    let r3 = r2.skip(1);
    assert(r3 =~= seq![0u8] + x);
    assert(find_zero(r3, 0) == Some(0int));
    assert(r3.skip(1) =~= x);
}

/// Parts that fit a PNG chunk (a chunk's length field has 32 bits).
pub open spec fn png_fits(m: MetaView, comp: Seq<u8>) -> bool {
    &&& (m.icc is Some ==> iccp_payload(comp).len() < 0x1_0000_0000)
    &&& (m.exif matches Some(e) ==> e.len() < 0x1_0000_0000)
    &&& (m.xmp matches Some(x) ==> itxt_payload(x).len() < 0x1_0000_0000)
}

proof fn lemma_icc_chunk(icc: Option<Seq<u8>>, comp: Seq<u8>, x: Seq<u8>)
    requires
        icc is Some ==> iccp_payload(comp).len() < 0x1_0000_0000,
        icc matches Some(c) ==> zlib_inflate(comp) == Some(c),
    ensures
        png_scan((if icc is Some { png_chunk(iccp_type(), iccp_payload(comp)) } else { seq![] }) + x,
            empty_meta()) == png_scan(x, MetaView { icc: icc, ..empty_meta() }),
{
    if icc is Some {
        lemma_iccp_parse(comp);
        assert(iccp_type() != iend_type()) by { assert(iccp_type()[0] != iend_type()[0]); }
        lemma_scan_chunk(iccp_type(), iccp_payload(comp), x, empty_meta());
        assert(png_step(empty_meta(), iccp_type(), iccp_payload(comp)) == MetaView { icc: icc, ..empty_meta() });
    } else {
        assert(seq![] + x =~= x);
    }
}

proof fn lemma_exif_chunk(e: Option<Seq<u8>>, x: Seq<u8>, m: MetaView)
    requires
        e matches Some(v) ==> v.len() < 0x1_0000_0000,
    ensures
        png_scan((match e { Some(v) => png_chunk(exif_type(), v), None => seq![] }) + x, m) == png_scan(
            x,
            MetaView { exif: if e is Some { e } else { m.exif }, ..m },
        ),
{
    if let Some(v) = e {
        assert(exif_type() != iend_type()) by { assert(exif_type()[0] != iend_type()[0]); }
        assert(exif_type() != iccp_type()) by { assert(exif_type()[0] != iccp_type()[0]); }
        lemma_scan_chunk(exif_type(), v, x, m);
    } else {
        assert(seq![] + x =~= x);
    }
}

proof fn lemma_xmp_chunk(e: Option<Seq<u8>>, x: Seq<u8>, m: MetaView)
    requires
        e matches Some(v) ==> itxt_payload(v).len() < 0x1_0000_0000,
    ensures
        png_scan((match e { Some(v) => png_chunk(itxt_type(), itxt_payload(v)), None => seq![] }) + x, m)
            == png_scan(x, MetaView { xmp: if e is Some { e } else { m.xmp }, ..m }),
{
    if let Some(v) = e {
        assert(itxt_type() != iend_type()) by { assert(itxt_type()[0] != iend_type()[0]); }
        assert(itxt_type() != iccp_type()) by { assert(itxt_type()[1] != iccp_type()[1]); }
        assert(itxt_type() != exif_type()) by { assert(itxt_type()[0] != exif_type()[0]); }
        lemma_itxt_parse(v);
        lemma_scan_chunk(itxt_type(), itxt_payload(v), x, m);
    } else {
        assert(seq![] + x =~= x);
    }
}

proof fn lemma_new_chunks(m: MetaView, comp: Seq<u8>, x: Seq<u8>)
    requires
        png_fits(m, comp),
        m.icc matches Some(c) ==> zlib_inflate(comp) == Some(c),
    ensures
        png_scan(png_new_chunks(m, comp) + x, empty_meta()) == png_scan(x, m),
{
    let a = if m.icc is Some { png_chunk(iccp_type(), iccp_payload(comp)) } else { seq![] };
    let b = match m.exif {
        Some(e) => png_chunk(exif_type(), e),
        None => seq![],
    };
    let c = match m.xmp {
        Some(v) => png_chunk(itxt_type(), itxt_payload(v)),
        None => seq![],
    };
    assert(png_new_chunks(m, comp) + x =~= a + (b + (c + x)));
    let m1 = MetaView { icc: m.icc, ..empty_meta() };
    let m2 = MetaView { exif: m.exif, ..m1 };
    lemma_icc_chunk(m.icc, comp, b + (c + x));
    lemma_exif_chunk(m.exif, c + x, m1);
    lemma_xmp_chunk(m.xmp, x, m2);
    assert(MetaView { xmp: m.xmp, ..m2 } == m);
}

/// Round trip: when the input PNG carries no metadata chunks of its own and
/// has no `IEND` before its first `IDAT`, `extract_png` reads back from the
/// output of `inject_png` exactly the metadata that was injected. `comp` is
/// the compressed profile that `inject_png` wrote (`zlib_deflate` of the
/// profile), which decompresses back to the profile.
pub proof fn lemma_png_roundtrip(d: Seq<u8>, m: MetaView, comp: Seq<u8>, at: int)
    requires
        d.len() >= 8,
        d.take(8) == png_sig(),
        png_find_idat(d.skip(8), 8) == Some(at),
        no_iend_before_idat(d.skip(8)),
        png_metadata(d) == empty_meta(),
        m.icc matches Some(c) ==> zlib_inflate(comp) == Some(c),
        png_fits(m, comp),
    ensures
        png_metadata(png_injected(d, m, comp, at)) == m,
{
    let s = d.skip(8);
    lemma_find_tiled(s, 8, at);
    let a = s.take(at - 8);
    let r = s.skip(at - 8);
    assert(s =~= a + r);
    assert(r =~= d.skip(at));
    lemma_scan_tiled(a, r, empty_meta());
    lemma_png_scan_over(r, png_scan(a, empty_meta()));
    // No metadata before or after the insertion point.
    let ma = png_scan(a, empty_meta());
    let mr = png_scan(r, empty_meta());
    assert(ma == empty_meta() && mr == empty_meta()) by {
        assert(over(ma, mr) == empty_meta());
    }
    let out = png_injected(d, m, comp, at);
    let c = png_new_chunks(m, comp);
    assert(out.take(8) =~= d.take(8));
    assert(out.skip(8) =~= a + (c + r));
    lemma_scan_tiled(a, c + r, empty_meta());
    lemma_new_chunks(m, comp, r);
    lemma_png_scan_over(r, m);
}

} // verus!
