//! Partitioning of the flattened triangle-vertex stream into material
//! groups.
//!
//! Faces are flattened in stored order into one stream of vertex-record
//! indices. A run ends wherever the emissive scalar (token slot 6) of a
//! vertex differs from its predecessor's under exact float equality.
//! Each closed run is resolved to a group by the run's effective
//! emissive color — the first vertex's color scaled by its emissive
//! scalar — matching existing groups by exact float equality in
//! first-seen order (a linear scan; material counts stay small), or
//! opening a new group otherwise. The first group is named `default`,
//! later ones `emissive1`, `emissive2` and so on.

use vstd::prelude::*;
use vstd::string::StringExecFns;
use crate::fbits;
use crate::rpo::{FaceRecord, VertexRecord, faces_in_range};
use crate::FormatError;

verus! {

/// An RGB triple of float bit patterns.
#[derive(Debug, Clone, Copy, PartialEq, Eq, Structural)]
pub struct Rgb {
    pub r: u32,
    pub g: u32,
    pub b: u32,
}

/// One material group: its name, its effective emissive color, and the
/// stream positions assigned to it, in order.
#[derive(Debug, Clone, PartialEq, Eq)]
pub struct MaterialGroup {
    pub name: String,
    pub emissive: Rgb,
    pub indices: Vec<u32>,
}

/// The ghost content of a group: color and assigned stream positions.
pub open spec fn model_of(gs: Seq<MaterialGroup>) -> Seq<(Rgb, Seq<u32>)> {
    gs.map_values(|g: MaterialGroup| (g.emissive, g.indices@))
}

/// Exact float equality of two colors, componentwise.
pub open spec fn spec_rgb_eq(a: Rgb, b: Rgb) -> bool {
    fbits::spec_eq(a.r, b.r) && fbits::spec_eq(a.g, b.g) && fbits::spec_eq(a.b, b.b)
}

/// Element `i` of the flattened stream: the face indices in stored
/// order, three per face.
pub open spec fn spec_flat_at(fs: Seq<FaceRecord>, i: int) -> u16 {
    if i % 3 == 0 {
        fs[i / 3].a
    } else if i % 3 == 1 {
        fs[i / 3].b
    } else {
        fs[i / 3].c
    }
}

/// The flattened triangle-vertex stream.
pub open spec fn spec_flat(fs: Seq<FaceRecord>) -> Seq<u16> {
    Seq::new(3 * fs.len(), |i: int| spec_flat_at(fs, i))
}

/// Token `j` of a vertex record, zero when the record is shorter.
pub open spec fn tok_or_zero(v: Seq<u32>, j: int) -> u32 {
    if 0 <= j < v.len() {
        v[j]
    } else {
        0
    }
}

/// The emissive scalar of stream position `i`.
pub open spec fn spec_em(vs: Seq<Seq<u32>>, flat: Seq<u16>, i: int) -> u32 {
    tok_or_zero(vs[flat[i] as int], 6)
}

/// Color token `slot` of stream position `i`.
pub open spec fn spec_tok(vs: Seq<Seq<u32>>, flat: Seq<u16>, i: int, slot: int) -> u32 {
    tok_or_zero(vs[flat[i] as int], slot)
}

/// The effective emissive color of the run starting at `s`: the color
/// of its first vertex, each channel multiplied by the emissive scalar.
pub open spec fn spec_run_color(vs: Seq<Seq<u32>>, flat: Seq<u16>, s: int) -> Rgb {
    Rgb {
        r: fbits::spec_mul(spec_tok(vs, flat, s, 3), spec_em(vs, flat, s)),
        g: fbits::spec_mul(spec_tok(vs, flat, s, 4), spec_em(vs, flat, s)),
        b: fbits::spec_mul(spec_tok(vs, flat, s, 5), spec_em(vs, flat, s)),
    }
}

/// The first group at position `j` or later whose color equals `c`.
pub open spec fn spec_find_color(gs: Seq<(Rgb, Seq<u32>)>, c: Rgb, j: int) -> Option<int>
    decreases gs.len() - j,
{
    if j < 0 || j >= gs.len() {
        None
    } else if spec_rgb_eq(gs[j].0, c) {
        Some(j)
    } else {
        spec_find_color(gs, c, j + 1)
    }
}

/// Stream positions `s` up to `e`, exclusive.
pub open spec fn spec_range(s: int, e: int) -> Seq<u32> {
    Seq::new((e - s) as nat, |k: int| (s + k) as u32)
}

/// Resolve the closed run `[s, e)` of color `c`: append its positions
/// to the first group of equal color, or open a new group.
pub open spec fn spec_close(gs: Seq<(Rgb, Seq<u32>)>, c: Rgb, s: int, e: int) -> Seq<
    (Rgb, Seq<u32>),
> {
    match spec_find_color(gs, c, 0) {
        Some(j) => gs.update(j, (gs[j].0, gs[j].1 + spec_range(s, e))),
        None => gs.push((c, spec_range(s, e))),
    }
}

/// The segmenter state after the comparisons at stream positions
/// `1` up to `i - 1`: the groups closed so far and the start of the
/// still open run.
pub open spec fn spec_seg_state(vs: Seq<Seq<u32>>, flat: Seq<u16>, i: int) -> (
    Seq<(Rgb, Seq<u32>)>,
    int,
)
    decreases i,
{
    if i <= 1 {
        (Seq::empty(), 0)
    } else {
        let st = spec_seg_state(vs, flat, i - 1);
        if fbits::spec_eq(spec_em(vs, flat, i - 2), spec_em(vs, flat, i - 1)) {
            st
        } else {
            (spec_close(st.0, spec_run_color(vs, flat, st.1), st.1, i - 1), i - 1)
        }
    }
}

/// The groups of a non-empty stream, after the final run is closed.
pub open spec fn spec_groups(vs: Seq<Seq<u32>>, flat: Seq<u16>) -> Seq<(Rgb, Seq<u32>)> {
    let st = spec_seg_state(vs, flat, flat.len() as int);
    spec_close(st.0, spec_run_color(vs, flat, st.1), st.1, flat.len() as int)
}

/// The decimal digit character for `d`.
pub open spec fn spec_digit_char(d: nat) -> char {
    if d == 0 {
        '0'
    } else if d == 1 {
        '1'
    } else if d == 2 {
        '2'
    } else if d == 3 {
        '3'
    } else if d == 4 {
        '4'
    } else if d == 5 {
        '5'
    } else if d == 6 {
        '6'
    } else if d == 7 {
        '7'
    } else if d == 8 {
        '8'
    } else {
        '9'
    }
}

/// The decimal text of `n`, as characters.
pub open spec fn spec_dec_chars(n: nat) -> Seq<char>
    decreases n,
{
    if n < 10 {
        seq![spec_digit_char(n)]
    } else {
        spec_dec_chars(n / 10).push(spec_digit_char(n % 10))
    }
}

/// The name of group `i`: `default` for the first group, `emissive{i}`
/// for the others.
pub open spec fn spec_group_name(i: int) -> Seq<char> {
    if i == 0 {
        "default"@
    } else {
        "emissive"@ + spec_dec_chars(i as nat)
    }
}

/// Every group carries the name its position dictates.
pub open spec fn names_ok(gs: Seq<MaterialGroup>) -> bool {
    forall|gi: int| 0 <= gi < gs.len() ==> (#[trigger] gs[gi]).name@ == spec_group_name(gi)
}

pub(crate) fn digit_str(d: u8) -> (r: &'static str)
    requires
        d < 10,
    ensures
        r@ == seq![spec_digit_char(d as nat)],
{
    proof {
        reveal_strlit("0");
        reveal_strlit("1");
        reveal_strlit("2");
        reveal_strlit("3");
        reveal_strlit("4");
        reveal_strlit("5");
        reveal_strlit("6");
        reveal_strlit("7");
        reveal_strlit("8");
        reveal_strlit("9");
    }
    let r = if d == 0 {
        "0"
    } else if d == 1 {
        "1"
    } else if d == 2 {
        "2"
    } else if d == 3 {
        "3"
    } else if d == 4 {
        "4"
    } else if d == 5 {
        "5"
    } else if d == 6 {
        "6"
    } else if d == 7 {
        "7"
    } else if d == 8 {
        "8"
    } else {
        "9"
    };
    proof {
        assert(r@ =~= seq![spec_digit_char(d as nat)]);
    }
    r
}

/// Append the decimal text of `n` to `s`.
pub(crate) fn push_dec_str(s: &mut String, n: u64)
    ensures
        final(s)@ == old(s)@ + spec_dec_chars(n as nat),
    decreases n,
{
    if n < 10 {
        s.append(digit_str(n as u8));
        proof {
            assert(old(s)@ + seq![spec_digit_char(n as nat)] =~= old(s)@ + spec_dec_chars(
                n as nat,
            ));
        }
    } else {
        push_dec_str(s, n / 10);
        s.append(digit_str((n % 10) as u8));
        proof {
            assert((old(s)@ + spec_dec_chars((n / 10) as nat)) + seq![
                spec_digit_char((n % 10) as nat),
            ] =~= old(s)@ + spec_dec_chars(n as nat));
        }
    }
}

/// The name of group `i`, executable.
fn group_name(i: usize) -> (r: String)
    ensures
        r@ == spec_group_name(i as int),
{
    if i == 0 {
        "default".to_owned()
    } else {
        let mut s = "emissive".to_owned();
        push_dec_str(&mut s, i as u64);
        s
    }
}

/// Flatten faces into the stream of vertex-record indices.
pub fn flatten(faces: &Vec<FaceRecord>) -> (r: Vec<u16>)
    requires
        3 * faces@.len() <= 0xffff_ffff,
    ensures
        r@ == spec_flat(faces@),
{
    let mut r: Vec<u16> = Vec::new();
    let mut k: usize = 0;
    while k < faces.len()
        invariant
            k <= faces@.len(),
            3 * faces@.len() <= 0xffff_ffff,
            r@.len() == 3 * k,
            forall|idx: int| 0 <= idx < 3 * k ==> r@[idx] == spec_flat_at(faces@, idx),
        decreases faces@.len() - k,
    {
        let f = faces[k];
        r.push(f.a);
        r.push(f.b);
        r.push(f.c);
        proof {
            assert((3 * k) % 3 == 0 && (3 * k) / 3 == k);
            assert((3 * k + 1) % 3 == 1 && (3 * k + 1) / 3 == k);
            assert((3 * k + 2) % 3 == 2 && (3 * k + 2) / 3 == k);
        }
        k = k + 1;
    }
    proof {
        assert(r@ =~= spec_flat(faces@));
    }
    r
}

/// Exact float equality of two colors, executable.
fn rgb_eq(a: Rgb, b: Rgb) -> (r: bool)
    ensures
        r == spec_rgb_eq(a, b),
{
    fbits::eq_bits(a.r, b.r) && fbits::eq_bits(a.g, b.g) && fbits::eq_bits(a.b, b.b)
}

/// Token `slot` of the vertex record at stream position `s`.
fn tok_at(vertices: &Vec<VertexRecord>, flat: &Vec<u16>, s: usize, slot: usize) -> (r: u32)
    requires
        s < flat@.len(),
        (flat@[s as int] as int) < vertices@.len(),
    ensures
        r == tok_or_zero(vertices@.map_values(|v: VertexRecord| v@)[flat@[s as int] as int],
            slot as int),
{
    let v = &vertices[flat[s] as usize];
    if slot < v.tokens.len() {
        v.tokens[slot]
    } else {
        0
    }
}

/// The effective emissive color of the run starting at `s`, executable.
fn run_color(vertices: &Vec<VertexRecord>, flat: &Vec<u16>, s: usize) -> (r: Rgb)
    requires
        s < flat@.len(),
        (flat@[s as int] as int) < vertices@.len(),
    ensures
        r == spec_run_color(vertices@.map_values(|v: VertexRecord| v@), flat@, s as int),
{
    let em = tok_at(vertices, flat, s, 6);
    Rgb {
        r: fbits::mul_bits(tok_at(vertices, flat, s, 3), em),
        g: fbits::mul_bits(tok_at(vertices, flat, s, 4), em),
        b: fbits::mul_bits(tok_at(vertices, flat, s, 5), em),
    }
}

/// Stream positions `s` up to `e` as a vector.
fn range_indices(s: usize, e: usize) -> (r: Vec<u32>)
    requires
        s <= e <= 0xffff_ffff,
    ensures
        r@ == spec_range(s as int, e as int),
{
    let mut r: Vec<u32> = Vec::new();
    let mut x = s;
    while x < e
        invariant
            s <= x <= e <= 0xffff_ffff,
            r@.len() == x - s,
            forall|k: int| 0 <= k < x - s ==> r@[k] == (s + k) as u32,
        decreases e - x,
    {
        r.push(x as u32);
        x = x + 1;
    }
    proof {
        assert(r@ =~= spec_range(s as int, e as int));
    }
    r
}

/// Resolve a closed run into the group list, executable.
#[verifier::loop_isolation(false)]
fn close_run(groups: Vec<MaterialGroup>, color: Rgb, s: usize, e: usize) -> (r: Vec<MaterialGroup>)
    requires
        s <= e <= 0xffff_ffff,
        names_ok(groups@),
    ensures
        model_of(r@) == spec_close(model_of(groups@), color, s as int, e as int),
        names_ok(r@),
{
    let ghost m = model_of(groups@);
    let mut k: usize = 0;
    let mut found: Option<usize> = None;
    while k < groups.len()
        invariant
            k <= groups@.len(),
            match found {
                Some(j) => j < groups@.len() && spec_find_color(m, color, 0) == Some(j as int),
                None => spec_find_color(m, color, 0) == spec_find_color(m, color, k as int),
            },
        decreases groups@.len() - k,
    {
        if found.is_none() && rgb_eq(groups[k].emissive, color) {
            found = Some(k);
        }
        k = k + 1;
    }
    let rv = range_indices(s, e);
    let ghost orig = groups@;
    match found {
        Some(j) => {
            let mut groups2 = groups;
            let mut g = groups2.remove(j);
            let mut tail = rv;
            g.indices.append(&mut tail);
            groups2.insert(j, g);
            proof {
                assert(groups2@ =~= orig.update(
                    j as int,
                    MaterialGroup {
                        name: orig[j as int].name,
                        emissive: orig[j as int].emissive,
                        indices: g.indices,
                    },
                ));
                assert(model_of(groups2@) =~= m.update(
                    j as int,
                    (m[j as int].0, m[j as int].1 + spec_range(s as int, e as int)),
                ));
                assert(forall|gi: int|
                    0 <= gi < groups2@.len() ==> (#[trigger] groups2@[gi]).name@
                        == spec_group_name(gi));
            }
            groups2
        },
        None => {
            proof {
                assert(spec_find_color(m, color, orig.len() as int) == None::<int>);
            }
            let name = group_name(groups.len());
            let mut groups2 = groups;
            groups2.push(MaterialGroup { name, emissive: color, indices: rv });
            proof {
                assert(model_of(groups2@) =~= m.push((color, spec_range(s as int, e as int))));
                assert(forall|gi: int|
                    0 <= gi < groups2@.len() ==> (#[trigger] groups2@[gi]).name@
                        == spec_group_name(gi));
            }
            groups2
        },
    }
}

/// Split the flattened stream into material groups.
///
/// Fails with `EmptyMesh` exactly when there are no faces, so the
/// stream is empty. On success the groups partition the stream
/// positions into first-seen-ordered, color-deduplicated runs, and
/// their index lists together hold one entry per flattened triangle
/// vertex. The face count is bounded so that stream positions fit the
/// 32-bit indices the GLB buffer stores.
#[verifier::loop_isolation(false)]
pub fn segment_materials(vertices: &Vec<VertexRecord>, faces: &Vec<FaceRecord>) -> (r: Result<
    Vec<MaterialGroup>,
    FormatError,
>)
    requires
        faces_in_range(faces@, vertices@.len() as nat),
        3 * faces@.len() <= 0xffff_ffff,
    ensures
        match r {
            Ok(gs) => faces@.len() > 0 && model_of(gs@) == spec_groups(
                vertices@.map_values(|v: VertexRecord| v@),
                spec_flat(faces@),
            ) && names_ok(gs@) && spec_pre_idx(model_of(gs@), gs@.len() as int) == 3 * faces@.len(),
            Err(e) => e == FormatError::EmptyMesh && faces@.len() == 0,
        },
{
    let ghost vsv = vertices@.map_values(|v: VertexRecord| v@);
    let flat = flatten(faces);
    if flat.len() == 0 {
        return Err(FormatError::EmptyMesh);
    }
    proof {
        assert(forall|i: int|
            0 <= i < flat@.len() ==> (flat@[i] as int) < vertices@.len()) by {
            assert(forall|i: int|
                0 <= i < flat@.len() ==> #[trigger] flat@[i] == spec_flat_at(faces@, i));
        }
    }
    let mut groups: Vec<MaterialGroup> = Vec::new();
    let mut start: usize = 0;
    let mut prev_em = tok_at(vertices, &flat, 0, 6);
    let mut i: usize = 1;
    while i < flat.len()
        invariant
            1 <= i <= flat@.len(),
            start < i,
            model_of(groups@) == spec_seg_state(vsv, flat@, i as int).0,
            start == spec_seg_state(vsv, flat@, i as int).1,
            names_ok(groups@),
            prev_em == spec_em(vsv, flat@, i - 1),
        decreases flat@.len() - i,
    {
        let cur = tok_at(vertices, &flat, i, 6);
        if !fbits::eq_bits(prev_em, cur) {
            let color = run_color(vertices, &flat, start);
            groups = close_run(groups, color, start, i);
            start = i;
        }
        prev_em = cur;
        i = i + 1;
    }
    let color = run_color(vertices, &flat, start);
    let groups2 = close_run(groups, color, start, flat.len());
    proof {
        lemma_group_sizes(vsv, flat@);
    }
    Ok(groups2)
}

/// The number of indices held by the first `k` groups together.
pub open spec fn spec_pre_idx(gs: Seq<(Rgb, Seq<u32>)>, k: int) -> nat
    decreases k,
{
    if k <= 0 {
        0
    } else {
        spec_pre_idx(gs, k - 1) + gs[k - 1].1.len()
    }
}

/// The index total depends only on the first `k` entries.
proof fn lemma_pre_congruent(a: Seq<(Rgb, Seq<u32>)>, b: Seq<(Rgb, Seq<u32>)>, k: int)
    requires
        k <= a.len(),
        k <= b.len(),
        forall|i: int| 0 <= i < k ==> a[i] == b[i],
    ensures
        spec_pre_idx(a, k) == spec_pre_idx(b, k),
    decreases k,
{
    if k > 0 {
        lemma_pre_congruent(a, b, k - 1);
    }
}

/// The index total is monotone in the prefix length.
pub proof fn lemma_pre_mono(gs: Seq<(Rgb, Seq<u32>)>, j: int, k: int)
    requires
        0 <= j <= k,
    ensures
        spec_pre_idx(gs, j) <= spec_pre_idx(gs, k),
    decreases k,
{
    if j < k {
        lemma_pre_mono(gs, j, k - 1);
    }
}

/// Updating one group changes the total by the size difference.
proof fn lemma_pre_update(gs: Seq<(Rgb, Seq<u32>)>, j: int, v: (Rgb, Seq<u32>), k: int)
    requires
        0 <= j < k <= gs.len(),
    ensures
        spec_pre_idx(gs.update(j, v), k) == spec_pre_idx(gs, k) - gs[j].1.len() + v.1.len(),
    decreases k,
{
    if j == k - 1 {
        lemma_pre_congruent(gs.update(j, v), gs, k - 1);
    } else {
        lemma_pre_update(gs, j, v, k - 1);
    }
}

/// A found color index lies inside the group list.
proof fn lemma_find_in_range(gs: Seq<(Rgb, Seq<u32>)>, c: Rgb, j: int)
    requires
        0 <= j,
        spec_find_color(gs, c, j) is Some,
    ensures
        j <= spec_find_color(gs, c, j)->Some_0 < gs.len(),
    decreases gs.len() - j,
{
    if j < gs.len() && !spec_rgb_eq(gs[j].0, c) {
        lemma_find_in_range(gs, c, j + 1);
    }
}

/// Closing a run of `e - s` positions grows the index total by exactly
/// that many entries.
proof fn lemma_close_total(gs: Seq<(Rgb, Seq<u32>)>, c: Rgb, s: int, e: int)
    requires
        0 <= s <= e,
    ensures
        spec_pre_idx(spec_close(gs, c, s, e), spec_close(gs, c, s, e).len() as int) == spec_pre_idx(
            gs,
            gs.len() as int,
        ) + (e - s),
        spec_close(gs, c, s, e).len() <= gs.len() + 1,
{
    let r = spec_close(gs, c, s, e);
    match spec_find_color(gs, c, 0) {
        Some(j) => {
            lemma_find_in_range(gs, c, 0);
            lemma_pre_update(gs, j, (gs[j].0, gs[j].1 + spec_range(s, e)), gs.len() as int);
        },
        None => {
            lemma_pre_congruent(r, gs, gs.len() as int);
        },
    }
}

/// Through every state, the closed groups hold one index per stream
/// position already behind the open run.
proof fn lemma_state_total(vs: Seq<Seq<u32>>, flat: Seq<u16>, i: int)
    requires
        1 <= i,
    ensures
        ({
            let st = spec_seg_state(vs, flat, i);
            &&& 0 <= st.1 <= i - 1
            &&& st.0.len() <= i - 1
            &&& spec_pre_idx(st.0, st.0.len() as int) == st.1
        }),
    decreases i,
{
    if i > 1 {
        lemma_state_total(vs, flat, i - 1);
        let st = spec_seg_state(vs, flat, i - 1);
        if !fbits::spec_eq(spec_em(vs, flat, i - 2), spec_em(vs, flat, i - 1)) {
            lemma_close_total(st.0, spec_run_color(vs, flat, st.1), st.1, i - 1);
        }
    }
}

/// Two stream positions sit in one group's index list.
pub open spec fn in_same_group(gs: Seq<(Rgb, Seq<u32>)>, x: u32, y: u32) -> bool {
    exists|j: int|
        0 <= j < gs.len() && (#[trigger] gs[j].1).contains(x) && gs[j].1.contains(y)
}

/// Resolving a run never separates positions already grouped together.
proof fn lemma_close_same_group(gs: Seq<(Rgb, Seq<u32>)>, c: Rgb, s: int, e: int, x: u32, y: u32)
    requires
        in_same_group(gs, x, y),
    ensures
        in_same_group(spec_close(gs, c, s, e), x, y),
{
    let j = choose|j: int|
        0 <= j < gs.len() && (#[trigger] gs[j].1).contains(x) && gs[j].1.contains(y);
    let r = spec_close(gs, c, s, e);
    let ix = choose|ix: int| 0 <= ix < gs[j].1.len() && gs[j].1[ix] == x;
    let iy = choose|iy: int| 0 <= iy < gs[j].1.len() && gs[j].1[iy] == y;
    match spec_find_color(gs, c, 0) {
        Some(j0) => {
            lemma_find_in_range(gs, c, 0);
            if j == j0 {
                assert(r[j].1[ix] == x);
                assert(r[j].1[iy] == y);
            } else {
                assert(r[j].1[ix] == x);
                assert(r[j].1[iy] == y);
            }
        },
        None => {
            assert(r[j].1[ix] == x);
            assert(r[j].1[iy] == y);
        },
    }
}

/// Resolving a run puts the whole run into one group.
proof fn lemma_close_covers(gs: Seq<(Rgb, Seq<u32>)>, c: Rgb, s: int, e: int, x: int, y: int)
    requires
        0 <= s <= x < e,
        s <= y < e,
        e <= 0x1_0000_0000,
    ensures
        in_same_group(spec_close(gs, c, s, e), x as u32, y as u32),
{
    let r = spec_close(gs, c, s, e);
    let rg = spec_range(s, e);
    assert(rg[x - s] == x as u32);
    assert(rg[y - s] == y as u32);
    match spec_find_color(gs, c, 0) {
        Some(j0) => {
            lemma_find_in_range(gs, c, 0);
            let l = gs[j0].1.len() as int;
            assert(r[j0].1[l + (x - s)] == x as u32);
            assert(r[j0].1[l + (y - s)] == y as u32);
            assert(r[j0].1.contains(x as u32));
            assert(r[j0].1.contains(y as u32));
        },
        None => {
            let j0 = gs.len() as int;
            assert(r[j0].1[x - s] == x as u32);
            assert(r[j0].1[y - s] == y as u32);
            assert(r[j0].1.contains(x as u32));
            assert(r[j0].1.contains(y as u32));
        },
    }
}

/// The segmenter's invariant: equal-scalar neighbours already behind
/// the open run share a group, the open run starts at a boundary, and
/// the open run is internally equal.
pub open spec fn seg_inv(vs: Seq<Seq<u32>>, flat: Seq<u16>, i: int) -> bool {
    let st = spec_seg_state(vs, flat, i);
    &&& (forall|x: int|
        0 < x < st.1 && fbits::spec_eq(spec_em(vs, flat, x - 1), #[trigger] spec_em(vs, flat, x))
            ==> in_same_group(st.0, (x - 1) as u32, x as u32))
    &&& (st.1 > 0 ==> !fbits::spec_eq(spec_em(vs, flat, st.1 - 1), spec_em(vs, flat, st.1)))
    &&& (forall|x: int|
        st.1 < x < i ==> fbits::spec_eq(
            spec_em(vs, flat, x - 1),
            #[trigger] spec_em(vs, flat, x),
        ))
}

#[verifier::rlimit(100)]
proof fn lemma_seg_inv(vs: Seq<Seq<u32>>, flat: Seq<u16>, i: int)
    requires
        1 <= i <= flat.len() + 1,
        flat.len() <= 0x1_0000_0000,
    ensures
        seg_inv(vs, flat, i),
    decreases i,
{
    if i <= 1 {
    } else {
        lemma_seg_inv(vs, flat, i - 1);
        lemma_state_total(vs, flat, i - 1);
        let st = spec_seg_state(vs, flat, i - 1);
        let st2 = spec_seg_state(vs, flat, i);
        if fbits::spec_eq(spec_em(vs, flat, i - 2), spec_em(vs, flat, i - 1)) {
        } else {
            let c = spec_run_color(vs, flat, st.1);
            assert forall|x: int|
                0 < x < st2.1 && fbits::spec_eq(
                    spec_em(vs, flat, x - 1),
                    #[trigger] spec_em(vs, flat, x),
                ) implies in_same_group(st2.0, (x - 1) as u32, x as u32) by {
                if x < st.1 {
                    lemma_close_same_group(st.0, c, st.1, i - 1, (x - 1) as u32, x as u32);
                } else if x == st.1 {
                    // the open run started at a boundary
                } else {
                    lemma_close_covers(st.0, c, st.1, i - 1, x - 1, x);
                }
            }
        }
    }
}

/// Consecutive stream positions whose emissive scalars are exactly
/// equal never cross a group boundary: one group's index list holds
/// both.
pub proof fn lemma_no_spurious_split(vs: Seq<Seq<u32>>, flat: Seq<u16>, i: int)
    requires
        0 < i < flat.len(),
        flat.len() <= 0x1_0000_0000,
        fbits::spec_eq(spec_em(vs, flat, i - 1), spec_em(vs, flat, i)),
    ensures
        in_same_group(spec_groups(vs, flat), (i - 1) as u32, i as u32),
{
    let n = flat.len() as int;
    lemma_seg_inv(vs, flat, n);
    lemma_state_total(vs, flat, n);
    let st = spec_seg_state(vs, flat, n);
    let c = spec_run_color(vs, flat, st.1);
    if i < st.1 {
        lemma_close_same_group(st.0, c, st.1, n, (i - 1) as u32, i as u32);
    } else if i == st.1 {
        assert(false);
    } else {
        lemma_close_covers(st.0, c, st.1, n, i - 1, i);
    }
}

/// Every stream position is assigned to exactly one group slot: the
/// group index lists together hold one entry per flattened triangle
/// vertex, so their total size is three times the face count.
pub proof fn lemma_group_sizes(vs: Seq<Seq<u32>>, flat: Seq<u16>)
    requires
        flat.len() > 0,
    ensures
        spec_pre_idx(spec_groups(vs, flat), spec_groups(vs, flat).len() as int) == flat.len(),
        spec_groups(vs, flat).len() <= flat.len(),
{
    lemma_state_total(vs, flat, flat.len() as int);
    let st = spec_seg_state(vs, flat, flat.len() as int);
    lemma_close_total(st.0, spec_run_color(vs, flat, st.1), st.1, flat.len() as int);
}

} // verus!
