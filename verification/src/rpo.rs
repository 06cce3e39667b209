//! Decoder for the RPO/RPOZ binary mesh format.
//!
//! A buffer either starts with the big-endian magic `RPO1` and is used
//! as is, or starts with the two-byte marker `0x78 0x9c` and holds a raw
//! DEFLATE stream whose decompressed content is an `RPO1` payload.
//! The fixed preamble gives the vertex count and the byte length of the
//! face index block; a scan over the variable-length chunk section then
//! finds where vertex data begins and how many four-byte float fields
//! each vertex record carries.

use vstd::prelude::*;
use vstd::bytes::{spec_u16_from_le_bytes, spec_u32_from_le_bytes, u16_from_le_bytes,
    u32_from_le_bytes};
use vstd::slice::slice_subrange;
use flate2::read::DeflateDecoder;
use std::io::Read;
use crate::FormatError;

verus! {

/// The little-endian 32-bit word at byte offset `off`.
pub open spec fn le32(p: Seq<u8>, off: int) -> u32 {
    spec_u32_from_le_bytes(p.subrange(off, off + 4))
}

/// The little-endian 16-bit word at byte offset `off`.
pub open spec fn le16(p: Seq<u8>, off: int) -> u16 {
    spec_u16_from_le_bytes(p.subrange(off, off + 2))
}

fn read_le32(p: &[u8], off: usize) -> (r: u32)
    requires
        off + 4 <= p@.len(),
    ensures
        r == le32(p@, off as int),
{
    let n = p.len();
    u32_from_le_bytes(slice_subrange(p, off, off + 4))
}

fn read_le16(p: &[u8], off: usize) -> (r: u16)
    requires
        off + 2 <= p@.len(),
    ensures
        r == le16(p@, off as int),
{
    let n = p.len();
    u16_from_le_bytes(slice_subrange(p, off, off + 2))
}

/// One vertex record: the bit patterns of its float fields, in order.
/// Slots 0 to 2 are the position, 3 to 5 the color, slot 6 the emissive
/// scalar; further slots are carried but unused.
#[derive(Debug, Clone, PartialEq, Eq)]
pub struct VertexRecord {
    pub tokens: Vec<u32>,
}

impl View for VertexRecord {
    type V = Seq<u32>;

    open spec fn view(&self) -> Seq<u32> {
        self.tokens@
    }
}

/// One face: three vertex indices, winding order as stored.
#[derive(Debug, Clone, Copy, PartialEq, Eq, Structural)]
pub struct FaceRecord {
    pub a: u16,
    pub b: u16,
    pub c: u16,
}

/// What a raw DEFLATE stream inflates to; `None` when the stream is
/// invalid. The result is a function of the compressed bytes alone.
pub uninterp spec fn spec_inflate(s: Seq<u8>) -> Option<Seq<u8>>;

/// Relies on flate2's `DeflateDecoder` over `Read::read_to_end`: raw
/// DEFLATE decompression of the whole input, a function of the
/// compressed bytes alone, failing exactly on invalid streams.
#[verifier::external_body]
fn inflate(data: &[u8]) -> (r: Option<Vec<u8>>)
    ensures
        match r {
            Some(v) => spec_inflate(data@) == Some(v@),
            None => spec_inflate(data@) == None::<Seq<u8>>,
        },
{
    let mut decoder = DeflateDecoder::new(data);
    let mut out = Vec::new();
    match decoder.read_to_end(&mut out) {
        Ok(_) => Some(out),
        Err(_) => None,
    }
}

/// The header scan. Words are read at offset `c` and following. A word
/// equal to `0x1406` marks an attribute chunk whose float count stands
/// in the word before the indicator; a zero word followed by a word
/// greater than four ends the scan at the position of that following
/// word. Returns the offset where vertex data begins and the token
/// count, or `None` when the buffer ends first.
pub open spec fn spec_scan(p: Seq<u8>, c: int, tok: nat) -> Option<(int, nat)>
    recommends
        12 <= c,
    decreases p.len() - c,
{
    if c + 4 > p.len() {
        None
    } else {
        let w = le32(p, c);
        if w == 0x1406 {
            spec_scan(p, c + 4, tok + le32(p, c - 4) as nat)
        } else if w == 0 {
            if c + 8 > p.len() {
                None
            } else if le32(p, c + 4) > 4 {
                Some((c + 4, tok))
            } else {
                spec_scan(p, c + 4, tok)
            }
        } else {
            spec_scan(p, c + 4, tok)
        }
    }
}

/// The token sequence of vertex record `i`.
pub open spec fn spec_vertex(p: Seq<u8>, h: int, tc: nat, i: int) -> Seq<u32> {
    Seq::new(tc, |j: int| le32(p, h + 4 * (i * tc + j)))
}

/// All vertex records.
pub open spec fn spec_vertices(p: Seq<u8>, h: int, tc: nat, vc: nat) -> Seq<Seq<u32>> {
    Seq::new(vc, |i: int| spec_vertex(p, h, tc, i))
}

/// Face record `k`, read at the face block offset `fb`.
pub open spec fn spec_face(p: Seq<u8>, fb: int, k: int) -> FaceRecord {
    FaceRecord { a: le16(p, fb + 6 * k), b: le16(p, fb + 6 * k + 2), c: le16(p, fb + 6 * k + 4) }
}

/// All face records.
pub open spec fn spec_faces(p: Seq<u8>, fb: int, fc: nat) -> Seq<FaceRecord> {
    Seq::new(fc, |k: int| spec_face(p, fb, k))
}

/// Every face index refers to an existing vertex record.
pub open spec fn faces_in_range(fs: Seq<FaceRecord>, vc: nat) -> bool {
    forall|k: int|
        0 <= k < fs.len() ==> fs[k].a < vc && fs[k].b < vc && fs[k].c < vc
}

/// Decoding of an uncompressed `RPO1` payload.
pub open spec fn spec_decode_payload(p: Seq<u8>) -> Result<
    (Seq<Seq<u32>>, Seq<FaceRecord>),
    FormatError,
> {
    if p.len() < 12 {
        Err(FormatError::TruncatedData)
    } else {
        let vc = le32(p, 4) as nat;
        let fb = le32(p, 8) as nat;
        let fc = fb / 6;
        match spec_scan(p, 12, 0) {
            None => Err(FormatError::HeaderNotFound),
            Some((h, tc)) => {
                if h + 4 * vc * tc + 6 * fc > p.len() {
                    Err(FormatError::TruncatedData)
                } else {
                    let vs = spec_vertices(p, h, tc, vc);
                    let fs = spec_faces(p, h + 4 * vc * tc, fc);
                    if faces_in_range(fs, vc) {
                        Ok((vs, fs))
                    } else {
                        Err(FormatError::TruncatedData)
                    }
                }
            },
        }
    }
}

/// The `RPO1` payload a raw buffer denotes: the buffer itself under the
/// `RPO1` magic, the inflated stream under the RPOZ marker, nothing
/// otherwise.
pub open spec fn spec_payload(data: Seq<u8>) -> Option<Seq<u8>> {
    if data.len() >= 4 && data[0] == 0x52 && data[1] == 0x50 && data[2] == 0x4f && data[3] == 0x31 {
        Some(data)
    } else if data.len() >= 2 && data[0] == 0x78 && data[1] == 0x9c {
        spec_inflate(data.skip(2))
    } else {
        None
    }
}

/// Full decoding of a raw RPO/RPOZ buffer.
pub open spec fn spec_decode(data: Seq<u8>) -> Result<(Seq<Seq<u32>>, Seq<FaceRecord>), FormatError> {
    match spec_payload(data) {
        None => Err(FormatError::InvalidMagic),
        Some(p) => spec_decode_payload(p),
    }
}

/// The executable header scan.
fn scan_header(p: &[u8]) -> (r: Option<(usize, u128)>)
    ensures
        match r {
            Some(pair) => spec_scan(p@, 12, 0) == Some((pair.0 as int, pair.1 as nat))
                && 16 <= pair.0 && pair.0 + 4 <= p@.len(),
            None => spec_scan(p@, 12, 0) == None::<(int, nat)>,
        },
{
    let mut c: usize = 12;
    let mut tok: u128 = 0;
    loop
        invariant
            12 <= c,
            tok <= c as u128 * 0x1_0000_0000,
            spec_scan(p@, 12, 0) == spec_scan(p@, c as int, tok as nat),
        decreases p@.len() - c,
    {
        if p.len() < 4 || c > p.len() - 4 {
            return None;
        }
        let w = read_le32(p, c);
        if w == 0x1406 {
            let add = read_le32(p, c - 4);
            tok = tok + add as u128;
            c = c + 4;
        } else if w == 0 {
            if p.len() < 8 || c > p.len() - 8 {
                return None;
            }
            let n = read_le32(p, c + 4);
            if n > 4 {
                return Some((c + 4, tok));
            }
            c = c + 4;
        } else {
            c = c + 4;
        }
    }
}

/// Bounds for one four-byte read inside the vertex block.
proof fn lemma_vertex_read(h: int, vc: int, tc: int, i: int, j: int, len: int)
    requires
        0 <= h,
        0 <= i < vc,
        0 <= j < tc,
        h + 4 * vc * tc <= len,
    ensures
        h + 4 * (i * tc + j) + 4 <= len,
        0 <= i * tc + j,
        i * tc + j < vc * tc,
{
    assert(i * tc + j + 1 <= vc * tc) by (nonlinear_arith)
        requires
            0 <= i < vc,
            0 <= j < tc,
    ;
    assert(4 * (i * tc + j) + 4 <= 4 * (vc * tc)) by (nonlinear_arith)
        requires
            i * tc + j + 1 <= vc * tc,
    ;
    assert(4 * vc * tc == 4 * (vc * tc)) by (nonlinear_arith);
    assert(i * tc + j >= 0) by (nonlinear_arith)
        requires
            0 <= i,
            0 <= j,
            0 <= tc,
    ;
}

/// Bounds for one read inside the face block.
proof fn lemma_face_read(fb: int, fc: int, k: int, len: int)
    requires
        0 <= fb,
        0 <= k < fc,
        fb + 6 * fc <= len,
    ensures
        fb + 6 * k + 6 <= len,
{
    assert(6 * k + 6 <= 6 * fc) by (nonlinear_arith)
        requires
            0 <= k < fc,
    ;
}

/// Decode an uncompressed `RPO1` payload into vertex and face records.
#[verifier::loop_isolation(false)]
fn decode_payload(p: &[u8]) -> (r: Result<(Vec<VertexRecord>, Vec<FaceRecord>), FormatError>)
    ensures
        match r {
            Ok(pair) => spec_decode_payload(p@) == Ok::<_, FormatError>(
                (pair.0@.map_values(|v: VertexRecord| v@), pair.1@),
            ) && pair.1@.len() <= 0x2aaa_aaaa && faces_in_range(pair.1@, pair.0@.len() as nat),
            Err(e) => spec_decode_payload(p@) == Err::<(Seq<Seq<u32>>, Seq<FaceRecord>), _>(e),
        },
{
    if p.len() < 12 {
        return Err(FormatError::TruncatedData);
    }
    let vc = read_le32(p, 4);
    let fb = read_le32(p, 8);
    let fc = fb / 6;
    let scan = scan_header(p);
    match scan {
        None => Err(FormatError::HeaderNotFound),
        Some((h, tok)) => {
            let ghost gtc: nat = tok as nat;
            // an oversized token count can never fit the buffer
            if vc > 0 && tok > 0xffff_ffff_ffff_ffff {
                proof {
                    assert(4 * (vc as int) * (gtc as int) >= 4 * (gtc as int)) by (nonlinear_arith)
                        requires
                            vc >= 1,
                            gtc >= 0,
                    ;
                }
                return Err(FormatError::TruncatedData);
            }
            let vtok: u128 = if vc == 0 {
                0
            } else {
                tok
            };
            proof {
                assert(4 * (vc as int) * (gtc as int) == 4 * (vc as int) * (vtok as int))
                    by (nonlinear_arith)
                    requires
                        vc == 0 ==> vtok == 0,
                        vc != 0 ==> vtok == gtc,
                ;
                assert((4 * (vc as u128)) * vtok <= 0x4_0000_0000 * 0xffff_ffff_ffff_ffff)
                    by (nonlinear_arith)
                    requires
                        vc <= 0xffff_ffffu32,
                        vtok <= 0xffff_ffff_ffff_ffffu128,
                ;
            }
            let need: u128 = h as u128 + 4 * (vc as u128) * vtok + 6 * (fc as u128);
            if need > p.len() as u128 {
                return Err(FormatError::TruncatedData);
            }
            let tc: usize = if vc == 0 {
                0
            } else {
                proof {
                    assert(4 * (vtok as int) <= 4 * (vc as int) * (vtok as int))
                        by (nonlinear_arith)
                        requires
                            vc >= 1,
                            vtok >= 0,
                    ;
                }
                tok as usize
            };
            let vcu: usize = vc as usize;
            let mut vs: Vec<VertexRecord> = Vec::new();
            let mut i: usize = 0;
            while i < vcu
                invariant
                    i <= vcu,
                    vcu == vc,
                    vc > 0 ==> tc == gtc,
                    h + 4 * (vc as nat) * gtc + 6 * ((fb as nat) / 6) <= p@.len(),
                    h + 4 <= p@.len(),
                    vs@.len() == i,
                    forall|ii: int|
                        0 <= ii < i ==> (#[trigger] vs@[ii])@ == spec_vertex(
                            p@,
                            h as int,
                            gtc,
                            ii,
                        ),
                decreases vcu - i,
            {
                let mut tokens: Vec<u32> = Vec::new();
                let mut j: usize = 0;
                while j < tc
                    invariant
                        j <= tc,
                        i < vcu,
                        vcu == vc,
                        vc > 0 ==> tc == gtc,
                        h + 4 * (vc as nat) * gtc + 6 * ((fb as nat) / 6) <= p@.len(),
                        tokens@.len() == j,
                        forall|jj: int|
                            0 <= jj < j ==> tokens@[jj] == le32(
                                p@,
                                h + 4 * (i as int * gtc as int + jj),
                            ),
                    decreases tc - j,
                {
                    proof {
                        lemma_vertex_read(
                            h as int,
                            vc as int,
                            gtc as int,
                            i as int,
                            j as int,
                            p@.len() as int,
                        );
                    }
                    let off: usize = h + 4 * (i * tc + j);
                    let t = read_le32(p, off);
                    tokens.push(t);
                    j = j + 1;
                }
                proof {
                    assert(tokens@ =~= spec_vertex(p@, h as int, gtc, i as int));
                }
                vs.push(VertexRecord { tokens });
                i = i + 1;
            }
            let ghost vbytes: int = 4 * (vc as int) * (gtc as int);
            proof {
                if vc == 0 {
                    assert(vbytes == 0) by (nonlinear_arith)
                        requires
                            vbytes == 4 * (vc as int) * (gtc as int),
                            vc == 0,
                    ;
                } else {
                    assert(4 * ((vcu as int) * (tc as int)) == vbytes) by (nonlinear_arith)
                        requires
                            vcu == vc,
                            tc == gtc,
                            vbytes == 4 * (vc as int) * (gtc as int),
                    ;
                    assert((vcu as int) * (tc as int) >= 0) by (nonlinear_arith)
                        requires
                            vcu >= 0,
                            tc >= 0,
                    ;
                }
            }
            let fbase: usize = if vcu == 0 {
                h
            } else {
                h + 4 * (vcu * tc)
            };
            let fcu: usize = fc as usize;
            let mut fs: Vec<FaceRecord> = Vec::new();
            let mut k: usize = 0;
            while k < fcu
                invariant
                    k <= fcu,
                    fcu == fc,
                    fbase == h + vbytes,
                    vbytes == 4 * (vc as int) * (gtc as int),
                    fbase + 6 * (fc as int) <= p@.len(),
                    fs@.len() == k,
                    forall|kk: int|
                        0 <= kk < k ==> #[trigger] fs@[kk] == spec_face(p@, fbase as int, kk),
                decreases fcu - k,
            {
                proof {
                    lemma_face_read(fbase as int, fc as int, k as int, p@.len() as int);
                }
                let off: usize = fbase + 6 * k;
                let a = read_le16(p, off);
                let b = read_le16(p, off + 2);
                let c2 = read_le16(p, off + 4);
                fs.push(FaceRecord { a, b, c: c2 });
                k = k + 1;
            }
            proof {
                assert(fs@ =~= spec_faces(p@, h + vbytes, (fb as nat) / 6));
            }
            let mut k2: usize = 0;
            while k2 < fs.len()
                invariant
                    k2 <= fs@.len(),
                    forall|kk: int|
                        0 <= kk < k2 ==> (#[trigger] fs@[kk]).a < vc && fs@[kk].b < vc
                            && fs@[kk].c < vc,
                decreases fs@.len() - k2,
            {
                let f = fs[k2];
                if f.a as u32 >= vc || f.b as u32 >= vc || f.c as u32 >= vc {
                    proof {
                        assert(!(fs@[k2 as int].a < vc && fs@[k2 as int].b < vc
                            && fs@[k2 as int].c < vc));
                        assert(!faces_in_range(fs@, vc as nat));
                    }
                    return Err(FormatError::TruncatedData);
                }
                k2 = k2 + 1;
            }
            proof {
                assert(vs@.map_values(|v: VertexRecord| v@) =~= spec_vertices(
                    p@,
                    h as int,
                    gtc,
                    vc as nat,
                ));
            }
            Ok((vs, fs))
        },
    }
}

/// Decode a raw RPO/RPOZ buffer into vertex and face records.
///
/// Returns `InvalidMagic` when the buffer starts with neither marker or
/// its DEFLATE stream is invalid, `HeaderNotFound` when the scan runs
/// off the payload, and `TruncatedData` when the preamble, a record or
/// a face index reaches past what the payload holds.
pub fn decode_rpo(data: &[u8]) -> (r: Result<(Vec<VertexRecord>, Vec<FaceRecord>), FormatError>)
    ensures
        match r {
            Ok(pair) => spec_decode(data@) == Ok::<_, FormatError>(
                (pair.0@.map_values(|v: VertexRecord| v@), pair.1@),
            ) && pair.1@.len() <= 0x2aaa_aaaa && faces_in_range(pair.1@, pair.0@.len() as nat),
            Err(e) => spec_decode(data@) == Err::<(Seq<Seq<u32>>, Seq<FaceRecord>), _>(e),
        },
{
    if data.len() >= 4 && data[0] == 0x52 && data[1] == 0x50 && data[2] == 0x4f && data[3] == 0x31 {
        decode_payload(data)
    } else if data.len() >= 2 && data[0] == 0x78 && data[1] == 0x9c {
        let tail = slice_subrange(data, 2, data.len());
        proof {
            assert(data@.subrange(2, data@.len() as int) =~= data@.skip(2));
        }
        match inflate(tail) {
            None => Err(FormatError::InvalidMagic),
            Some(buf) => decode_payload(buf.as_slice()),
        }
    } else {
        Err(FormatError::InvalidMagic)
    }
}

} // verus!
