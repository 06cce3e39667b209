//! Encoder for the glTF 2.0 binary container (GLB).
//!
//! The binary buffer interleaves position and color of every flattened
//! stream vertex (24-byte stride), followed by one block of 32-bit
//! little-endian indices per material group. The JSON document is
//! rendered byte for byte by this module; float values appear as their
//! exact decimal expansions. The container packs the JSON and binary
//! chunks behind the 12-byte file header, both chunks padded to
//! four-byte boundaries.

use vstd::prelude::*;
use vstd::bytes::{spec_u32_to_le_bytes, u32_to_le_bytes};
use vstd::string::StringSliceAdditionalSpecFns;
use crate::decimal::{spec_decimal, spec_dec_u64, decimal_bits, push_dec_u64};
use crate::fbits;
use crate::segment::{Rgb, MaterialGroup, model_of, spec_tok, tok_or_zero, spec_pre_idx, lemma_pre_mono};
use crate::rpo::VertexRecord;
use crate::EncodeError;

verus! {

/// The position component `axis` of stream position `i`.
pub open spec fn spec_pos(vs: Seq<Seq<u32>>, flat: Seq<u16>, i: int, axis: int) -> u32 {
    spec_tok(vs, flat, i, axis)
}

/// The componentwise minimum of the first `k` positions along `axis`,
/// folded with exact float comparison; NaN entries never replace the
/// running value.
pub open spec fn spec_fold_min(vs: Seq<Seq<u32>>, flat: Seq<u16>, k: int, axis: int) -> u32
    decreases k,
{
    if k <= 1 {
        spec_pos(vs, flat, 0, axis)
    } else {
        let m = spec_fold_min(vs, flat, k - 1, axis);
        if fbits::spec_lt(spec_pos(vs, flat, k - 1, axis), m) {
            spec_pos(vs, flat, k - 1, axis)
        } else {
            m
        }
    }
}

/// The componentwise maximum, folded the same way.
pub open spec fn spec_fold_max(vs: Seq<Seq<u32>>, flat: Seq<u16>, k: int, axis: int) -> u32
    decreases k,
{
    if k <= 1 {
        spec_pos(vs, flat, 0, axis)
    } else {
        let m = spec_fold_max(vs, flat, k - 1, axis);
        if fbits::spec_lt(m, spec_pos(vs, flat, k - 1, axis)) {
            spec_pos(vs, flat, k - 1, axis)
        } else {
            m
        }
    }
}

/// The six bounding-box bit patterns: minima then maxima, x, y, z.
pub struct Bounds {
    pub min: [u32; 3],
    pub max: [u32; 3],
}

/// The 24 bytes of one interleaved vertex entry: position then color,
/// each component a little-endian float bit pattern.
pub open spec fn spec_ventry(vs: Seq<Seq<u32>>, flat: Seq<u16>, i: int) -> Seq<u8> {
    spec_u32_to_le_bytes(spec_tok(vs, flat, i, 0)) + spec_u32_to_le_bytes(spec_tok(vs, flat, i, 1))
        + spec_u32_to_le_bytes(spec_tok(vs, flat, i, 2)) + spec_u32_to_le_bytes(
        spec_tok(vs, flat, i, 3),
    ) + spec_u32_to_le_bytes(spec_tok(vs, flat, i, 4)) + spec_u32_to_le_bytes(
        spec_tok(vs, flat, i, 5),
    )
}

/// The vertex block: entries for stream positions `0` up to `k`.
pub open spec fn spec_vblock(vs: Seq<Seq<u32>>, flat: Seq<u16>, k: int) -> Seq<u8>
    decreases k,
{
    if k <= 0 {
        Seq::empty()
    } else {
        spec_vblock(vs, flat, k - 1) + spec_ventry(vs, flat, k - 1)
    }
}

/// The index block of one group: its first `k` indices, little-endian.
pub open spec fn spec_iblock(idx: Seq<u32>, k: int) -> Seq<u8>
    decreases k,
{
    if k <= 0 {
        Seq::empty()
    } else {
        spec_iblock(idx, k - 1) + spec_u32_to_le_bytes(idx[k - 1])
    }
}

/// The index blocks of the first `k` groups, in order.
pub open spec fn spec_gblocks(gs: Seq<(Rgb, Seq<u32>)>, k: int) -> Seq<u8>
    decreases k,
{
    if k <= 0 {
        Seq::empty()
    } else {
        spec_gblocks(gs, k - 1) + spec_iblock(gs[k - 1].1, gs[k - 1].1.len() as int)
    }
}

/// The whole binary buffer: vertex block, then one index block per
/// group.
pub open spec fn spec_buffer(vs: Seq<Seq<u32>>, flat: Seq<u16>, gs: Seq<(Rgb, Seq<u32>)>) -> Seq<
    u8,
> {
    spec_vblock(vs, flat, flat.len() as int) + spec_gblocks(gs, gs.len() as int)
}

/// Every flattened index refers to an existing vertex record.
pub open spec fn flat_in_range(flat: Seq<u16>, vlen: nat) -> bool {
    forall|i: int| 0 <= i < flat.len() ==> (#[trigger] flat[i] as nat) < vlen
}

/// Token `slot` of the vertex record at stream position `i`,
/// executable.
fn tok_at(vertices: &Vec<VertexRecord>, flat: &Vec<u16>, i: usize, slot: usize) -> (r: u32)
    requires
        i < flat@.len(),
        (flat@[i as int] as int) < vertices@.len(),
    ensures
        r == tok_or_zero(vertices@.map_values(|v: VertexRecord| v@)[flat@[i as int] as int],
            slot as int),
{
    let v = &vertices[flat[i] as usize];
    if slot < v.tokens.len() {
        v.tokens[slot]
    } else {
        0
    }
}

/// Compute the bounding box of all stream positions.
#[verifier::loop_isolation(false)]
pub fn compute_bounds(vertices: &Vec<VertexRecord>, flat: &Vec<u16>) -> (r: Bounds)
    requires
        flat@.len() > 0,
        flat_in_range(flat@, vertices@.len() as nat),
    ensures
        ({
            let vs = vertices@.map_values(|v: VertexRecord| v@);
            let n = flat@.len() as int;
            forall|axis: int|
                0 <= axis < 3 ==> r.min[axis] == spec_fold_min(vs, flat@, n, axis)
                    && r.max[axis] == spec_fold_max(vs, flat@, n, axis)
        }),
{
    let ghost vs = vertices@.map_values(|v: VertexRecord| v@);
    let mut min0 = tok_at(vertices, flat, 0, 0);
    let mut min1 = tok_at(vertices, flat, 0, 1);
    let mut min2 = tok_at(vertices, flat, 0, 2);
    let mut max0 = min0;
    let mut max1 = min1;
    let mut max2 = min2;
    let mut i: usize = 1;
    while i < flat.len()
        invariant
            1 <= i <= flat@.len(),
            min0 == spec_fold_min(vs, flat@, i as int, 0),
            min1 == spec_fold_min(vs, flat@, i as int, 1),
            min2 == spec_fold_min(vs, flat@, i as int, 2),
            max0 == spec_fold_max(vs, flat@, i as int, 0),
            max1 == spec_fold_max(vs, flat@, i as int, 1),
            max2 == spec_fold_max(vs, flat@, i as int, 2),
        decreases flat@.len() - i,
    {
        let p0 = tok_at(vertices, flat, i, 0);
        let p1 = tok_at(vertices, flat, i, 1);
        let p2 = tok_at(vertices, flat, i, 2);
        if fbits::lt_bits(p0, min0) {
            min0 = p0;
        }
        if fbits::lt_bits(p1, min1) {
            min1 = p1;
        }
        if fbits::lt_bits(p2, min2) {
            min2 = p2;
        }
        if fbits::lt_bits(max0, p0) {
            max0 = p0;
        }
        if fbits::lt_bits(max1, p1) {
            max1 = p1;
        }
        if fbits::lt_bits(max2, p2) {
            max2 = p2;
        }
        i = i + 1;
    }
    Bounds { min: [min0, min1, min2], max: [max0, max1, max2] }
}

/// Every bounding value encloses every position: the folded minimum is
/// at or below each coordinate and the folded maximum at or above it,
/// provided no position coordinate is NaN.
pub proof fn lemma_bounds_enclose(vs: Seq<Seq<u32>>, flat: Seq<u16>, k: int, axis: int)
    requires
        1 <= k <= flat.len(),
        forall|i: int| 0 <= i < k ==> !fbits::spec_is_nan(#[trigger] spec_pos(vs, flat, i, axis)),
    ensures
        forall|i: int|
            0 <= i < k ==> fbits::spec_le(
                spec_fold_min(vs, flat, k, axis),
                #[trigger] spec_pos(vs, flat, i, axis),
            ) && fbits::spec_le(spec_pos(vs, flat, i, axis), spec_fold_max(vs, flat, k, axis)),
        !fbits::spec_is_nan(spec_fold_min(vs, flat, k, axis)),
        !fbits::spec_is_nan(spec_fold_max(vs, flat, k, axis)),
    decreases k,
{
    if k > 1 {
        lemma_bounds_enclose(vs, flat, k - 1, axis);
    }
}

/// Build the interleaved vertex block.
#[verifier::loop_isolation(false)]
fn build_vblock(vertices: &Vec<VertexRecord>, flat: &Vec<u16>, out: &mut Vec<u8>)
    requires
        flat_in_range(flat@, vertices@.len() as nat),
    ensures
        final(out)@ == old(out)@ + spec_vblock(
            vertices@.map_values(|v: VertexRecord| v@),
            flat@,
            flat@.len() as int,
        ),
{
    let ghost vs = vertices@.map_values(|v: VertexRecord| v@);
    let ghost base = out@;
    let mut i: usize = 0;
    proof {
        assert(base + spec_vblock(vs, flat@, 0) =~= base);
    }
    while i < flat.len()
        invariant
            i <= flat@.len(),
            out@ == base + spec_vblock(vs, flat@, i as int),
        decreases flat@.len() - i,
    {
        let mut s: usize = 0;
        let ghost entry_base = out@;
        while s < 6
            invariant
                s <= 6,
                i < flat@.len(),
                out@ == entry_base + spec_tokens_le(vs, flat@, i as int, s as int),
            decreases 6 - s,
        {
            let t = tok_at(vertices, flat, i, s);
            let mut piece = u32_to_le_bytes(t);
            out.append(&mut piece);
            s = s + 1;
        }
        proof {
            reveal_with_fuel(spec_tokens_le, 7);
            assert(spec_tokens_le(vs, flat@, i as int, 6) =~= spec_ventry(vs, flat@, i as int));
            assert((base + spec_vblock(vs, flat@, i as int)) + spec_ventry(vs, flat@, i as int)
                =~= base + spec_vblock(vs, flat@, i as int + 1));
        }
        i = i + 1;
    }
}

/// The first `s` token fields of one vertex entry, little-endian.
pub open spec fn spec_tokens_le(vs: Seq<Seq<u32>>, flat: Seq<u16>, i: int, s: int) -> Seq<u8>
    decreases s,
{
    if s <= 0 {
        Seq::empty()
    } else {
        spec_tokens_le(vs, flat, i, s - 1) + spec_u32_to_le_bytes(spec_tok(vs, flat, i, s - 1))
    }
}

/// Build the index blocks of all groups.
#[verifier::loop_isolation(false)]
fn build_gblocks(groups: &Vec<MaterialGroup>, out: &mut Vec<u8>)
    ensures
        final(out)@ == old(out)@ + spec_gblocks(model_of(groups@), groups@.len() as int),
{
    let ghost m = model_of(groups@);
    let ghost base = out@;
    let mut g: usize = 0;
    proof {
        assert(base + spec_gblocks(m, 0) =~= base);
    }
    while g < groups.len()
        invariant
            g <= groups@.len(),
            out@ == base + spec_gblocks(m, g as int),
        decreases groups@.len() - g,
    {
        let idx = &groups[g].indices;
        let ghost block_base = out@;
        let mut j: usize = 0;
        proof {
            assert(block_base + spec_iblock(idx@, 0) =~= block_base);
        }
        while j < idx.len()
            invariant
                j <= idx@.len(),
                g < groups@.len(),
                idx@ == m[g as int].1,
                out@ == block_base + spec_iblock(idx@, j as int),
            decreases idx@.len() - j,
        {
            let mut piece = u32_to_le_bytes(idx[j]);
            out.append(&mut piece);
            j = j + 1;
        }
        proof {
            assert((base + spec_gblocks(m, g as int)) + spec_iblock(m[g as int].1, m[g as int].1.len() as int)
                =~= base + spec_gblocks(m, g as int + 1));
        }
        g = g + 1;
    }
}

/// Append the bytes of a slice.
fn push_bytes(out: &mut Vec<u8>, b: &[u8])
    ensures
        final(out)@ == old(out)@ + b@,
{
    let mut i: usize = 0;
    while i < b.len()
        invariant
            i <= b@.len(),
            out@ == old(out)@ + b@.take(i as int),
        decreases b@.len() - i,
    {
        proof {
            assert(b@.take(i as int).push(b@[i as int]) =~= b@.take(i as int + 1));
            assert((old(out)@ + b@.take(i as int)).push(b@[i as int]) =~= old(out)@ + b@.take(
                i as int + 1,
            ));
        }
        out.push(b[i]);
        i = i + 1;
    }
    proof {
        assert(b@.take(b@.len() as int) =~= b@);
    }
}

/// Append the UTF-8 bytes of a string slice.
fn push_ascii(out: &mut Vec<u8>, s: &str)
    ensures
        final(out)@ == old(out)@ + s.spec_bytes(),
{
    push_bytes(out, s.as_bytes());
}

/// The JSON text of one float value: its exact decimal expansion, or
/// `null` for a NaN or infinite pattern, as a JSON serializer writes
/// non-finite floats.
pub open spec fn spec_json_f32(bits: u32) -> Seq<u8> {
    if fbits::spec_is_nan(bits) || fbits::spec_is_inf(bits) {
        "null".spec_bytes()
    } else {
        spec_decimal(bits)
    }
}

fn push_f32_json(out: &mut Vec<u8>, bits: u32)
    ensures
        final(out)@ == old(out)@ + spec_json_f32(bits),
{
    if fbits::is_nan(bits) || fbits::is_inf(bits) {
        push_ascii(out, "null");
    } else {
        let mut d = decimal_bits(bits);
        out.append(&mut d);
    }
}

/// The JSON text of three comma-separated float values.
pub open spec fn spec_json_vec3(a: u32, b: u32, c: u32) -> Seq<u8> {
    spec_json_f32(a) + ",".spec_bytes() + spec_json_f32(b) + ",".spec_bytes() + spec_json_f32(c)
}

fn push_vec3_json(out: &mut Vec<u8>, a: u32, b: u32, c: u32)
    ensures
        final(out)@ == old(out)@ + spec_json_vec3(a, b, c),
{
    push_f32_json(out, a);
    push_ascii(out, ",");
    push_f32_json(out, b);
    push_ascii(out, ",");
    push_f32_json(out, c);
}

/// The lowercase hexadecimal digit for `d`.
pub open spec fn spec_hex_digit(d: nat) -> u8 {
    if d < 10 {
        (48 + d) as u8
    } else {
        (87 + d) as u8
    }
}

/// The JSON string escape of one byte: quote and backslash get a
/// backslash, control bytes become `\u00XX`, all else passes through
/// (multi-byte UTF-8 sequences are left intact).
pub open spec fn spec_esc_byte(b: u8) -> Seq<u8> {
    if b == 0x22 {
        seq![0x5cu8, 0x22u8]
    } else if b == 0x5c {
        seq![0x5cu8, 0x5cu8]
    } else if b < 0x20 {
        seq![0x5cu8, 0x75u8, 0x30u8, 0x30u8, spec_hex_digit((b / 16) as nat), spec_hex_digit(
            (b % 16) as nat,
        )]
    } else {
        seq![b]
    }
}

/// The JSON string escape of a byte sequence.
pub open spec fn spec_escape(s: Seq<u8>) -> Seq<u8>
    decreases s.len(),
{
    if s.len() == 0 {
        Seq::empty()
    } else {
        spec_esc_byte(s[0]) + spec_escape(s.drop_first())
    }
}

fn hex_digit(d: u8) -> (r: u8)
    requires
        d < 16,
    ensures
        r == spec_hex_digit(d as nat),
{
    if d < 10 {
        48 + d
    } else {
        87 + d
    }
}

/// Append the JSON string escape of the bytes of `s`.
#[verifier::loop_isolation(false)]
fn push_escaped(out: &mut Vec<u8>, s: &[u8])
    ensures
        final(out)@ == old(out)@ + spec_escape(s@),
{
    let mut i: usize = 0;
    proof {
        assert(s@.skip(0) =~= s@);
    }
    while i < s.len()
        invariant
            i <= s@.len(),
            old(out)@ + spec_escape(s@) == out@ + spec_escape(s@.skip(i as int)),
        decreases s@.len() - i,
    {
        let b = s[i];
        let ghost pre = out@;
        proof {
            let tail = s@.skip(i as int);
            assert(tail[0] == s@[i as int]);
            assert(tail.drop_first() =~= s@.skip(i as int + 1));
        }
        if b == 0x22 {
            out.push(0x5c);
            out.push(0x22);
        } else if b == 0x5c {
            out.push(0x5c);
            out.push(0x5c);
        } else if b < 0x20 {
            out.push(0x5c);
            out.push(0x75);
            out.push(0x30);
            out.push(0x30);
            out.push(hex_digit(b / 16));
            out.push(hex_digit(b % 16));
        } else {
            out.push(b);
        }
        proof {
            assert(out@ =~= pre + spec_esc_byte(s@[i as int]));
            assert((pre + spec_esc_byte(s@[i as int])) + spec_escape(s@.skip(i as int + 1)) =~= pre
                + (spec_esc_byte(s@[i as int]) + spec_escape(s@.skip(i as int + 1))));
        }
        i = i + 1;
    }
    proof {
        assert(spec_escape(s@.skip(s@.len() as int)) =~= Seq::<u8>::empty());
        assert(out@ + Seq::<u8>::empty() =~= out@);
    }
}

/// The two shared accessors: POSITION with its bounds, COLOR_0 twelve
/// bytes into the same view.
pub open spec fn spec_acc_head(n: nat, mn: (u32, u32, u32), mx: (u32, u32, u32)) -> Seq<u8> {
    "{\"bufferView\":0,\"byteOffset\":0,\"componentType\":5126,\"count\":".spec_bytes()
        + spec_dec_u64(n) + ",\"max\":[".spec_bytes() + spec_json_vec3(mx.0, mx.1, mx.2)
        + "],\"min\":[".spec_bytes() + spec_json_vec3(mn.0, mn.1, mn.2)
        + "],\"type\":\"VEC3\"},{\"bufferView\":0,\"byteOffset\":12,\"componentType\":5126,\"count\":".spec_bytes()
        + spec_dec_u64(n) + ",\"type\":\"VEC3\"}".spec_bytes()
}

/// The index accessor of group `g - 1` (buffer view `g`).
pub open spec fn spec_acc_piece(g: int, l: nat) -> Seq<u8> {
    ",{\"bufferView\":".spec_bytes() + spec_dec_u64(g as nat)
        + ",\"byteOffset\":0,\"componentType\":5125,\"count\":".spec_bytes() + spec_dec_u64(l)
        + ",\"type\":\"SCALAR\"}".spec_bytes()
}

/// The index accessors of the first `k` groups.
pub open spec fn spec_acc_groups(gs: Seq<(Rgb, Seq<u32>)>, k: int) -> Seq<u8>
    decreases k,
{
    if k <= 0 {
        Seq::empty()
    } else {
        spec_acc_groups(gs, k - 1) + spec_acc_piece(k, gs[k - 1].1.len())
    }
}

/// The buffer view of group `k - 1`: its index block offset and length.
pub open spec fn spec_view_piece(n: nat, gs: Seq<(Rgb, Seq<u32>)>, k: int) -> Seq<u8> {
    ",{\"buffer\":0,\"byteLength\":".spec_bytes() + spec_dec_u64(4 * gs[k - 1].1.len())
        + ",\"byteOffset\":".spec_bytes() + spec_dec_u64(24 * n + 4 * spec_pre_idx(gs, k - 1))
        + ",\"target\":34963}".spec_bytes()
}

/// The buffer views of the first `k` groups.
pub open spec fn spec_view_groups(n: nat, gs: Seq<(Rgb, Seq<u32>)>, k: int) -> Seq<u8>
    decreases k,
{
    if k <= 0 {
        Seq::empty()
    } else {
        spec_view_groups(n, gs, k - 1) + spec_view_piece(n, gs, k)
    }
}

/// One material: white metallic-rough base, the group's effective
/// emissive color, opaque and single-sided.
pub open spec fn spec_mat_body(c: Rgb) -> Seq<u8> {
    "{\"alphaMode\":\"OPAQUE\",\"doubleSided\":false,\"emissiveFactor\":[".spec_bytes()
        + spec_json_vec3(c.r, c.g, c.b)
        + "],\"pbrMetallicRoughness\":{\"baseColorFactor\":[1.0,1.0,1.0,1.0],\"metallicFactor\":1.0,\"roughnessFactor\":1.0}}".spec_bytes()
}

/// The materials of the first `k` groups, comma-separated.
pub open spec fn spec_mats(gs: Seq<(Rgb, Seq<u32>)>, k: int) -> Seq<u8>
    decreases k,
{
    if k <= 0 {
        Seq::empty()
    } else {
        spec_mats(gs, k - 1) + (if k == 1 {
            Seq::<u8>::empty()
        } else {
            ",".spec_bytes()
        }) + spec_mat_body(gs[k - 1].0)
    }
}

/// One primitive: the shared POSITION and COLOR_0 accessors, the
/// group's index accessor and material, triangle mode.
pub open spec fn spec_prim_body(g: int) -> Seq<u8> {
    "{\"attributes\":{\"COLOR_0\":1,\"POSITION\":0},\"indices\":".spec_bytes()
        + spec_dec_u64((g + 2) as nat) + ",\"material\":".spec_bytes() + spec_dec_u64(g as nat)
        + ",\"mode\":4}".spec_bytes()
}

/// The primitives of the first `k` groups, comma-separated.
pub open spec fn spec_prims(k: int) -> Seq<u8>
    decreases k,
{
    if k <= 0 {
        Seq::empty()
    } else {
        spec_prims(k - 1) + (if k == 1 {
            Seq::<u8>::empty()
        } else {
            ",".spec_bytes()
        }) + spec_prim_body(k - 1)
    }
}

/// The whole glTF JSON document, byte for byte.
pub open spec fn spec_gltf_json(
    n: nat,
    mn: (u32, u32, u32),
    mx: (u32, u32, u32),
    gs: Seq<(Rgb, Seq<u32>)>,
    name: Seq<u8>,
) -> Seq<u8> {
    "{\"accessors\":[".spec_bytes() + spec_acc_head(n, mn, mx) + spec_acc_groups(
        gs,
        gs.len() as int,
    )
        + "],\"asset\":{\"version\":\"2.0\"},\"bufferViews\":[{\"buffer\":0,\"byteLength\":".spec_bytes()
        + spec_dec_u64(24 * n) + ",\"byteOffset\":0,\"byteStride\":24,\"target\":34962}".spec_bytes()
        + spec_view_groups(n, gs, gs.len() as int) + "],\"buffers\":[{\"byteLength\":".spec_bytes()
        + spec_dec_u64(24 * n + 4 * spec_pre_idx(gs, gs.len() as int))
        + "}],\"materials\":[".spec_bytes() + spec_mats(gs, gs.len() as int)
        + "],\"meshes\":[{\"name\":\"".spec_bytes() + spec_escape(name)
        + "\",\"primitives\":[".spec_bytes() + spec_prims(gs.len() as int)
        + "]}],\"nodes\":[{\"mesh\":0}],\"scene\":0,\"scenes\":[{\"nodes\":[0]}]}".spec_bytes()
}

fn push_acc_piece(out: &mut Vec<u8>, g: u64, l: u64)
    ensures
        final(out)@ == old(out)@ + spec_acc_piece(g as int, l as nat),
{
    push_ascii(out, ",{\"bufferView\":");
    push_dec_u64(out, g);
    push_ascii(out, ",\"byteOffset\":0,\"componentType\":5125,\"count\":");
    push_dec_u64(out, l);
    push_ascii(out, ",\"type\":\"SCALAR\"}");
    proof {
        assert(out@ =~= old(out)@ + spec_acc_piece(g as int, l as nat));
    }
}

fn push_mat_body(out: &mut Vec<u8>, c: Rgb)
    ensures
        final(out)@ == old(out)@ + spec_mat_body(c),
{
    push_ascii(out, "{\"alphaMode\":\"OPAQUE\",\"doubleSided\":false,\"emissiveFactor\":[");
    push_vec3_json(out, c.r, c.g, c.b);
    push_ascii(out,
        "],\"pbrMetallicRoughness\":{\"baseColorFactor\":[1.0,1.0,1.0,1.0],\"metallicFactor\":1.0,\"roughnessFactor\":1.0}}");
    proof {
        assert(out@ =~= old(out)@ + spec_mat_body(c));
    }
}

fn push_prim_body(out: &mut Vec<u8>, g: u64)
    requires
        g <= 0xffff_ffff,
    ensures
        final(out)@ == old(out)@ + spec_prim_body(g as int),
{
    push_ascii(out, "{\"attributes\":{\"COLOR_0\":1,\"POSITION\":0},\"indices\":");
    push_dec_u64(out, g + 2);
    push_ascii(out, ",\"material\":");
    push_dec_u64(out, g);
    push_ascii(out, ",\"mode\":4}");
    proof {
        assert(out@ =~= old(out)@ + spec_prim_body(g as int));
    }
}

/// Render the glTF JSON document.
#[verifier::loop_isolation(false)]
#[verifier::rlimit(100)]
fn build_json(
    n: usize,
    bounds: &Bounds,
    groups: &Vec<MaterialGroup>,
    name: &str,
) -> (r: Vec<u8>)
    requires
        n <= 0xffff_ffff,
        groups@.len() <= 0xffff_ffff,
        spec_pre_idx(model_of(groups@), groups@.len() as int) <= 0xffff_ffff,
    ensures
        r@ == spec_gltf_json(
            n as nat,
            (bounds.min[0], bounds.min[1], bounds.min[2]),
            (bounds.max[0], bounds.max[1], bounds.max[2]),
            model_of(groups@),
            name.spec_bytes(),
        ),
{
    let ghost m = model_of(groups@);
    let ghost mn = (bounds.min[0], bounds.min[1], bounds.min[2]);
    let ghost mx = (bounds.max[0], bounds.max[1], bounds.max[2]);
    let glen = groups.len();
    let mut out: Vec<u8> = Vec::new();
    push_ascii(&mut out, "{\"accessors\":[");
    // the two shared accessors
    push_ascii(&mut out, "{\"bufferView\":0,\"byteOffset\":0,\"componentType\":5126,\"count\":");
    push_dec_u64(&mut out, n as u64);
    push_ascii(&mut out, ",\"max\":[");
    push_vec3_json(&mut out, bounds.max[0], bounds.max[1], bounds.max[2]);
    push_ascii(&mut out, "],\"min\":[");
    push_vec3_json(&mut out, bounds.min[0], bounds.min[1], bounds.min[2]);
    push_ascii(&mut out,
        "],\"type\":\"VEC3\"},{\"bufferView\":0,\"byteOffset\":12,\"componentType\":5126,\"count\":");
    push_dec_u64(&mut out, n as u64);
    push_ascii(&mut out, ",\"type\":\"VEC3\"}");
    proof {
        assert(out@ =~= "{\"accessors\":[".spec_bytes() + spec_acc_head(n as nat, mn, mx));
    }
    let ghost base_acc = out@;
    let mut g: usize = 0;
    while g < glen
        invariant
            g <= glen,
            out@ == base_acc + spec_acc_groups(m, g as int),
        decreases glen - g,
    {
        proof {
            lemma_pre_mono(m, g as int + 1, glen as int);
        }
        push_acc_piece(&mut out, (g + 1) as u64, groups[g].indices.len() as u64);
        proof {
            assert((base_acc + spec_acc_groups(m, g as int)) + spec_acc_piece(
                g as int + 1,
                m[g as int].1.len(),
            ) =~= base_acc + spec_acc_groups(m, g as int + 1));
        }
        g = g + 1;
    }
    push_ascii(&mut out,
        "],\"asset\":{\"version\":\"2.0\"},\"bufferViews\":[{\"buffer\":0,\"byteLength\":");
    push_dec_u64(&mut out, 24 * (n as u64));
    push_ascii(&mut out, ",\"byteOffset\":0,\"byteStride\":24,\"target\":34962}");
    let ghost base_view = out@;
    proof {
        assert(base_view =~= base_acc + spec_acc_groups(m, glen as int)
            + "],\"asset\":{\"version\":\"2.0\"},\"bufferViews\":[{\"buffer\":0,\"byteLength\":".spec_bytes()
            + spec_dec_u64(24 * n as nat)
            + ",\"byteOffset\":0,\"byteStride\":24,\"target\":34962}".spec_bytes());
    }
    let mut pre: u64 = 0;
    let mut g2: usize = 0;
    while g2 < glen
        invariant
            g2 <= glen,
            pre == spec_pre_idx(m, g2 as int),
            out@ == base_view + spec_view_groups(n as nat, m, g2 as int),
        decreases glen - g2,
    {
        proof {
            lemma_pre_mono(m, g2 as int + 1, glen as int);
        }
        push_ascii(&mut out, ",{\"buffer\":0,\"byteLength\":");
        push_dec_u64(&mut out, 4 * (groups[g2].indices.len() as u64));
        push_ascii(&mut out, ",\"byteOffset\":");
        push_dec_u64(&mut out, 24 * (n as u64) + 4 * pre);
        push_ascii(&mut out, ",\"target\":34963}");
        proof {
            assert(out@ =~= base_view + spec_view_groups(n as nat, m, g2 as int) + spec_view_piece(
                n as nat,
                m,
                g2 as int + 1,
            ));
            assert(base_view + spec_view_groups(n as nat, m, g2 as int) + spec_view_piece(
                n as nat,
                m,
                g2 as int + 1,
            ) =~= base_view + spec_view_groups(n as nat, m, g2 as int + 1));
        }
        pre = pre + groups[g2].indices.len() as u64;
        g2 = g2 + 1;
    }
    push_ascii(&mut out, "],\"buffers\":[{\"byteLength\":");
    push_dec_u64(&mut out, 24 * (n as u64) + 4 * pre);
    push_ascii(&mut out, "}],\"materials\":[");
    let ghost base_mat = out@;
    proof {
        assert(base_mat =~= base_view + spec_view_groups(n as nat, m, glen as int)
            + "],\"buffers\":[{\"byteLength\":".spec_bytes()
            + spec_dec_u64(24 * n as nat + 4 * spec_pre_idx(m, glen as int))
            + "}],\"materials\":[".spec_bytes());
    }
    let mut g3: usize = 0;
    while g3 < glen
        invariant
            g3 <= glen,
            out@ == base_mat + spec_mats(m, g3 as int),
        decreases glen - g3,
    {
        if g3 > 0 {
            push_ascii(&mut out, ",");
        }
        push_mat_body(&mut out, groups[g3].emissive);
        proof {
            if g3 == 0 {
                assert((base_mat + spec_mats(m, 0)) + spec_mat_body(m[0].0) =~= base_mat
                    + spec_mats(m, 1));
            } else {
                assert(((base_mat + spec_mats(m, g3 as int)) + ",".spec_bytes()) + spec_mat_body(
                    m[g3 as int].0,
                ) =~= base_mat + spec_mats(m, g3 as int + 1));
            }
        }
        g3 = g3 + 1;
    }
    push_ascii(&mut out, "],\"meshes\":[{\"name\":\"");
    push_escaped(&mut out, name.as_bytes());
    push_ascii(&mut out, "\",\"primitives\":[");
    let ghost base_prim = out@;
    proof {
        assert(base_prim =~= base_mat + spec_mats(m, glen as int)
            + "],\"meshes\":[{\"name\":\"".spec_bytes() + spec_escape(name.spec_bytes())
            + "\",\"primitives\":[".spec_bytes());
    }
    let mut g4: usize = 0;
    while g4 < glen
        invariant
            g4 <= glen,
            out@ == base_prim + spec_prims(g4 as int),
        decreases glen - g4,
    {
        if g4 > 0 {
            push_ascii(&mut out, ",");
        }
        push_prim_body(&mut out, g4 as u64);
        proof {
            if g4 == 0 {
                assert((base_prim + spec_prims(0)) + spec_prim_body(0) =~= base_prim + spec_prims(
                    1,
                ));
            } else {
                assert(((base_prim + spec_prims(g4 as int)) + ",".spec_bytes()) + spec_prim_body(
                    g4 as int,
                ) =~= base_prim + spec_prims(g4 as int + 1));
            }
        }
        g4 = g4 + 1;
    }
    push_ascii(&mut out, "]}],\"nodes\":[{\"mesh\":0}],\"scene\":0,\"scenes\":[{\"nodes\":[0]}]}");
    proof {
        assert(out@ =~= spec_gltf_json(n as nat, mn, mx, m, name.spec_bytes()));
    }
    out
}

/// The length of `n` bytes padded up to a four-byte boundary.
pub open spec fn pad4_len(n: nat) -> nat {
    ((n + 3) / 4) * 4
}

/// A chunk padded to a four-byte boundary with `b`.
pub open spec fn spec_pad(s: Seq<u8>, b: u8) -> Seq<u8> {
    s + Seq::new((pad4_len(s.len()) - s.len()) as nat, |x: int| b)
}

/// The container's total byte length: the 12-byte file header, two
/// 8-byte chunk headers, and both padded chunks.
pub open spec fn spec_total(j: nat, bl: nat) -> nat {
    12 + 8 + pad4_len(j) + 8 + pad4_len(bl)
}

/// The packed GLB container: file header, JSON chunk padded with
/// spaces, binary chunk padded with zeros.
pub open spec fn spec_container(json: Seq<u8>, bin: Seq<u8>) -> Seq<u8> {
    seq![0x67u8, 0x6cu8, 0x54u8, 0x46u8] + spec_u32_to_le_bytes(2) + spec_u32_to_le_bytes(
        spec_total(json.len(), bin.len()) as u32,
    ) + spec_u32_to_le_bytes(pad4_len(json.len()) as u32) + seq![0x4au8, 0x53u8, 0x4fu8, 0x4eu8]
        + spec_pad(json, 0x20) + spec_u32_to_le_bytes(pad4_len(bin.len()) as u32) + seq![
        0x42u8,
        0x49u8,
        0x4eu8,
        0u8,
    ] + spec_pad(bin, 0)
}

/// Padding adds fewer than four bytes and lands on a multiple of four.
pub proof fn lemma_pad4(n: nat)
    ensures
        pad4_len(n) == n + if n % 4 == 0 {
            0int
        } else {
            4 - n % 4
        },
        pad4_len(n) % 4 == 0,
{
    let q = n / 4;
    let r = n % 4;
    vstd::arithmetic::div_mod::lemma_fundamental_div_mod(n as int, 4);
    if r == 0 {
        vstd::arithmetic::div_mod::lemma_div_multiples_vanish_fancy(q as int, 3, 4);
        assert(4 * (q as int) + 3 == n + 3);
    } else {
        vstd::arithmetic::div_mod::lemma_div_multiples_vanish_fancy(q as int + 1, r - 1, 4);
        assert(4 * (q as int + 1) + (r - 1) == n + 3);
    }
    vstd::arithmetic::div_mod::lemma_mod_multiples_basic(((n + 3) / 4) as int, 4);
}

/// An encoded GLB asset: the JSON document and the binary buffer,
/// before container padding.
#[derive(Debug, Clone, PartialEq, Eq)]
pub struct Glb {
    pub json: Vec<u8>,
    pub bin: Vec<u8>,
}

/// Append `data` padded to a four-byte boundary with `fill`.
#[verifier::loop_isolation(false)]
fn push_chunk_padded(out: &mut Vec<u8>, data: &[u8], fill: u8)
    ensures
        final(out)@ == old(out)@ + spec_pad(data@, fill),
{
    push_bytes(out, data);
    proof {
        lemma_pad4(data@.len());
    }
    let rem = data.len() % 4;
    let cnt: usize = if rem == 0 {
        0
    } else {
        4 - rem
    };
    let mut c: usize = 0;
    while c < cnt
        invariant
            c <= cnt,
            out@ == old(out)@ + data@ + Seq::new(c as nat, |x: int| fill),
        decreases cnt - c,
    {
        proof {
            assert((old(out)@ + data@ + Seq::new(c as nat, |x: int| fill)).push(fill) =~= old(
                out,
            )@ + data@ + Seq::new(c as nat + 1, |x: int| fill));
        }
        out.push(fill);
        c = c + 1;
    }
    proof {
        assert(old(out)@ + data@ + Seq::new(cnt as nat, |x: int| fill) =~= old(out)@ + spec_pad(
            data@,
            fill,
        ));
    }
}

impl Glb {
    /// Pack the asset into the GLB container bytes.
    pub fn to_bytes(&self) -> (r: Vec<u8>)
        requires
            spec_total(self.json@.len(), self.bin@.len()) <= 0xffff_ffff,
        ensures
            r@ == spec_container(self.json@, self.bin@),
            r@.len() == spec_total(self.json@.len(), self.bin@.len()),
    {
        proof {
            lemma_pad4(self.json@.len());
            lemma_pad4(self.bin@.len());
            lemma_container_header(self.json@, self.bin@);
        }
        let j = self.json.len();
        let b = self.bin.len();
        let jrem = j % 4;
        let jp: u64 = j as u64 + (if jrem == 0 {
            0
        } else {
            4 - jrem
        }) as u64;
        let brem = b % 4;
        let bp: u64 = b as u64 + (if brem == 0 {
            0
        } else {
            4 - brem
        }) as u64;
        let total: u64 = 28 + jp + bp;
        let mut out: Vec<u8> = Vec::new();
        out.push(0x67);
        out.push(0x6c);
        out.push(0x54);
        out.push(0x46);
        let mut p = u32_to_le_bytes(2);
        out.append(&mut p);
        let mut p2 = u32_to_le_bytes(total as u32);
        out.append(&mut p2);
        let mut p3 = u32_to_le_bytes(jp as u32);
        out.append(&mut p3);
        out.push(0x4a);
        out.push(0x53);
        out.push(0x4f);
        out.push(0x4e);
        push_chunk_padded(&mut out, self.json.as_slice(), 0x20);
        let mut p4 = u32_to_le_bytes(bp as u32);
        out.append(&mut p4);
        out.push(0x42);
        out.push(0x49);
        out.push(0x4e);
        out.push(0);
        push_chunk_padded(&mut out, self.bin.as_slice(), 0);
        proof {
            assert(out@ =~= spec_container(self.json@, self.bin@));
        }
        out
    }
}

/// The folded bounding-box minima of all stream positions.
pub open spec fn spec_bmin(vs: Seq<Seq<u32>>, flat: Seq<u16>) -> (u32, u32, u32) {
    (
        spec_fold_min(vs, flat, flat.len() as int, 0),
        spec_fold_min(vs, flat, flat.len() as int, 1),
        spec_fold_min(vs, flat, flat.len() as int, 2),
    )
}

/// The folded bounding-box maxima of all stream positions.
pub open spec fn spec_bmax(vs: Seq<Seq<u32>>, flat: Seq<u16>) -> (u32, u32, u32) {
    (
        spec_fold_max(vs, flat, flat.len() as int, 0),
        spec_fold_max(vs, flat, flat.len() as int, 1),
        spec_fold_max(vs, flat, flat.len() as int, 2),
    )
}

/// Encode the flattened stream and its material groups as a GLB asset.
///
/// Fails with `SizeLimitExceeded` exactly when the packed container
/// would not fit the 32-bit length field of the file header. The
/// stream length and index totals are bounded so that every count and
/// offset the document states fits its 32-bit field.
pub fn encode_glb(
    vertices: &Vec<VertexRecord>,
    flat: &Vec<u16>,
    groups: &Vec<MaterialGroup>,
    name: &str,
) -> (r: Result<Glb, EncodeError>)
    requires
        0 < flat@.len() <= 0xffff_ffff,
        flat_in_range(flat@, vertices@.len() as nat),
        groups@.len() <= 0xffff_ffff,
        spec_pre_idx(model_of(groups@), groups@.len() as int) <= 0xffff_ffff,
    ensures
        ({
            let vs = vertices@.map_values(|v: VertexRecord| v@);
            let m = model_of(groups@);
            let json = spec_gltf_json(
                flat@.len() as nat,
                spec_bmin(vs, flat@),
                spec_bmax(vs, flat@),
                m,
                name.spec_bytes(),
            );
            let bin = spec_buffer(vs, flat@, m);
            match r {
                Ok(g) => g.json@ == json && g.bin@ == bin && spec_total(json.len(), bin.len())
                    <= 0xffff_ffff && g.bin@.len() == 24 * flat@.len() + 4 * spec_pre_idx(
                    m,
                    m.len() as int,
                ),
                Err(e) => e == EncodeError::SizeLimitExceeded && spec_total(
                    json.len(),
                    bin.len(),
                ) > 0xffff_ffff,
            }
        }),
{
    let bounds = compute_bounds(vertices, flat);
    let json = build_json(flat.len(), &bounds, groups, name);
    let mut bin: Vec<u8> = Vec::new();
    build_vblock(vertices, flat, &mut bin);
    build_gblocks(groups, &mut bin);
    proof {
        lemma_pad4(json@.len());
        lemma_pad4(bin@.len());
        lemma_buffer_len(
            vertices@.map_values(|v: VertexRecord| v@),
            flat@,
            model_of(groups@),
        );
    }
    let jrem = json.len() % 4;
    let jp: u128 = json.len() as u128 + (if jrem == 0 {
        0
    } else {
        4 - jrem
    }) as u128;
    let brem = bin.len() % 4;
    let bp: u128 = bin.len() as u128 + (if brem == 0 {
        0
    } else {
        4 - brem
    }) as u128;
    let total: u128 = 28 + jp + bp;
    if total > 0xffff_ffff {
        Err(EncodeError::SizeLimitExceeded)
    } else {
        Ok(Glb { json, bin })
    }
}

/// The length of the binary buffer: 24 bytes per flattened vertex and
/// 4 per group index, exactly what the JSON document declares.
pub proof fn lemma_buffer_len(vs: Seq<Seq<u32>>, flat: Seq<u16>, gs: Seq<(Rgb, Seq<u32>)>)
    ensures
        spec_buffer(vs, flat, gs).len() == 24 * flat.len() + 4 * spec_pre_idx(gs, gs.len() as int),
{
    lemma_vblock_len(vs, flat, flat.len() as int);
    lemma_gblocks_len(gs, gs.len() as int);
}

proof fn lemma_vblock_len(vs: Seq<Seq<u32>>, flat: Seq<u16>, k: int)
    requires
        0 <= k,
    ensures
        spec_vblock(vs, flat, k).len() == 24 * k,
    decreases k,
{
    vstd::bytes::lemma_auto_spec_u32_to_from_le_bytes();
    if k > 0 {
        lemma_vblock_len(vs, flat, k - 1);
    }
}

proof fn lemma_iblock_len(idx: Seq<u32>, k: int)
    requires
        0 <= k,
    ensures
        spec_iblock(idx, k).len() == 4 * k,
    decreases k,
{
    vstd::bytes::lemma_auto_spec_u32_to_from_le_bytes();
    if k > 0 {
        lemma_iblock_len(idx, k - 1);
    }
}

proof fn lemma_gblocks_len(gs: Seq<(Rgb, Seq<u32>)>, k: int)
    requires
        0 <= k,
    ensures
        spec_gblocks(gs, k).len() == 4 * spec_pre_idx(gs, k),
    decreases k,
{
    if k > 0 {
        lemma_gblocks_len(gs, k - 1);
        lemma_iblock_len(gs[k - 1].1, gs[k - 1].1.len() as int);
    }
}

/// The container header states the total length
/// `12 + 8 + len(jsonPadded) + 8 + len(binPadded)`, and both chunk
/// lengths are multiples of four.
pub proof fn lemma_container_header(json: Seq<u8>, bin: Seq<u8>)
    requires
        spec_total(json.len(), bin.len()) <= 0xffff_ffff,
    ensures
        spec_container(json, bin).len() == spec_total(json.len(), bin.len()),
        crate::rpo::le32(spec_container(json, bin), 8) == spec_total(json.len(), bin.len()),
        crate::rpo::le32(spec_container(json, bin), 12) == pad4_len(json.len()),
        crate::rpo::le32(spec_container(json, bin), 20 + pad4_len(json.len()) as int) == pad4_len(
            bin.len(),
        ),
        pad4_len(json.len()) % 4 == 0,
        pad4_len(bin.len()) % 4 == 0,
        spec_pad(json, 0x20).len() == pad4_len(json.len()),
        spec_pad(bin, 0).len() == pad4_len(bin.len()),
{
    lemma_pad4(json.len());
    lemma_pad4(bin.len());
    vstd::bytes::lemma_auto_spec_u32_to_from_le_bytes();
    let c = spec_container(json, bin);
    let t = spec_total(json.len(), bin.len());
    assert(c.subrange(8, 12) =~= spec_u32_to_le_bytes(t as u32));
    assert(c.subrange(12, 16) =~= spec_u32_to_le_bytes(pad4_len(json.len()) as u32));
    assert(c.subrange(20 + pad4_len(json.len()) as int, 24 + pad4_len(json.len()) as int)
        =~= spec_u32_to_le_bytes(pad4_len(bin.len()) as u32));
}


} // verus!
