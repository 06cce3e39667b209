//! End-to-end tests of the decode / segment / encode pipeline.

use rpo_glb::convert_buffer;
use rpo_glb::glb::encode_glb;
use rpo_glb::rpo::decode_rpo;
use rpo_glb::segment::{flatten, segment_materials};
use rpo_glb::{ConvertError, FormatError};
use std::io::Write;

/// Build an uncompressed `RPO1` buffer: preamble, one attribute chunk
/// declaring `token_count` floats per vertex, the scan terminator, then
/// the vertex and face payload.
fn rpo1_buffer(token_count: u32, vertices: &[Vec<f32>], faces: &[[u16; 3]]) -> Vec<u8> {
    let mut v = b"RPO1".to_vec();
    v.extend_from_slice(&(vertices.len() as u32).to_le_bytes());
    v.extend_from_slice(&((faces.len() * 6) as u32).to_le_bytes());
    // chunk count word, then the chunk indicator that makes it count
    v.extend_from_slice(&token_count.to_le_bytes());
    v.extend_from_slice(&0x1406u32.to_le_bytes());
    // zero word; the next word (the first vertex float) ends the scan
    v.extend_from_slice(&0u32.to_le_bytes());
    for vert in vertices {
        assert_eq!(vert.len(), token_count as usize);
        for t in vert {
            v.extend_from_slice(&t.to_bits().to_le_bytes());
        }
    }
    for f in faces {
        for i in f {
            v.extend_from_slice(&i.to_le_bytes());
        }
    }
    v
}

fn vert(pos: [f32; 3], col: [f32; 3], em: f32) -> Vec<f32> {
    vec![pos[0], pos[1], pos[2], col[0], col[1], col[2], em]
}

fn tri_buffer() -> Vec<u8> {
    rpo1_buffer(
        7,
        &[
            vert([1.0, 2.0, 3.0], [0.5, 0.5, 0.5], 0.0),
            vert([4.0, 5.0, 6.0], [0.5, 0.5, 0.5], 0.0),
            vert([-1.0, 0.0, 7.0], [0.5, 0.5, 0.5], 0.0),
        ],
        &[[0, 1, 2]],
    )
}

#[test]
fn round_trip_single_default_group() {
    // three vertices of seven tokens, one face, all emissive scalars zero
    let buf = tri_buffer();
    let (vertices, faces) = decode_rpo(&buf).unwrap();
    assert_eq!(vertices.len(), 3);
    assert_eq!(vertices[0].tokens.len(), 7);
    assert_eq!(vertices[0].tokens[0], 1.0f32.to_bits());
    assert_eq!(faces.len(), 1);
    assert_eq!((faces[0].a, faces[0].b, faces[0].c), (0, 1, 2));
    let groups = segment_materials(&vertices, &faces).unwrap();
    assert_eq!(groups.len(), 1);
    assert_eq!(groups[0].name, "default");
    assert_eq!(groups[0].indices, vec![0u32, 1, 2]);
}

#[test]
fn segmentation_two_runs_two_groups() {
    // first three vertices emissive 0, last three emissive 5
    let c = [0.5f32, 0.25, 1.0];
    let vertices = vec![
        vert([2.0, 0.0, 0.0], c, 0.0),
        vert([1.0, 0.0, 0.0], c, 0.0),
        vert([0.0, 1.0, 0.0], c, 0.0),
        vert([0.0, 0.0, 1.0], c, 5.0),
        vert([1.0, 1.0, 0.0], c, 5.0),
        vert([0.0, 1.0, 1.0], c, 5.0),
    ];
    let buf = rpo1_buffer(7, &vertices, &[[0, 1, 2], [3, 4, 5]]);
    let (vs, fs) = decode_rpo(&buf).unwrap();
    let groups = segment_materials(&vs, &fs).unwrap();
    assert_eq!(groups.len(), 2);
    assert_eq!(groups[0].name, "default");
    assert_eq!(groups[0].indices, vec![0u32, 1, 2]);
    assert_eq!(groups[1].name, "emissive1");
    assert_eq!(groups[1].indices, vec![3u32, 4, 5]);
    // the emissive factor is the run's color scaled by its scalar
    assert_eq!(groups[0].emissive.r, (0.5f32 * 0.0).to_bits());
    assert_eq!(groups[1].emissive.r, (0.5f32 * 5.0).to_bits());
    assert_eq!(groups[1].emissive.g, (0.25f32 * 5.0).to_bits());
    assert_eq!(groups[1].emissive.b, (1.0f32 * 5.0).to_bits());
}

#[test]
fn equal_colors_merge_across_runs() {
    // runs 1 and 3 share the same effective color and must share a group
    let c = [1.0f32, 1.0, 1.0];
    let vertices = vec![
        vert([2.0, 0.0, 0.0], c, 2.0),
        vert([1.0, 0.0, 0.0], c, 2.0),
        vert([0.0, 1.0, 0.0], c, 2.0),
        vert([0.0, 0.0, 1.0], c, 3.0),
        vert([1.0, 1.0, 0.0], c, 3.0),
        vert([0.0, 1.0, 1.0], c, 3.0),
        vert([2.0, 0.0, 0.0], c, 2.0),
        vert([0.0, 2.0, 0.0], c, 2.0),
        vert([0.0, 0.0, 2.0], c, 2.0),
    ];
    let buf = rpo1_buffer(7, &vertices, &[[0, 1, 2], [3, 4, 5], [6, 7, 8]]);
    let (vs, fs) = decode_rpo(&buf).unwrap();
    let groups = segment_materials(&vs, &fs).unwrap();
    assert_eq!(groups.len(), 2);
    assert_eq!(groups[0].name, "default");
    assert_eq!(groups[0].indices, vec![0u32, 1, 2, 6, 7, 8]);
    assert_eq!(groups[1].name, "emissive1");
    assert_eq!(groups[1].indices, vec![3u32, 4, 5]);
}

#[test]
fn group_index_totals_match_face_count() {
    let c = [1.0f32, 0.5, 0.25];
    let mut vertices = Vec::new();
    let mut faces = Vec::new();
    for k in 0..8u16 {
        let em = (k % 3) as f32;
        vertices.push(vert([k as f32 + 1.0, 0.0, 0.0], c, em));
        vertices.push(vert([0.0, k as f32, 0.0], c, em));
        vertices.push(vert([0.0, 0.0, k as f32], c, em));
        faces.push([3 * k, 3 * k + 1, 3 * k + 2]);
    }
    let buf = rpo1_buffer(7, &vertices, &faces);
    let (vs, fs) = decode_rpo(&buf).unwrap();
    let groups = segment_materials(&vs, &fs).unwrap();
    let total: usize = groups.iter().map(|g| g.indices.len()).sum();
    assert_eq!(total, 3 * fs.len());
}

#[test]
fn malformed_magic_fails() {
    // any leading bytes other than RPO1 or the RPOZ marker are rejected
    let buf = vec![0x00u8, 0x11, 0x22, 0x33, 0x44, 0x55, 0x66, 0x77];
    assert_eq!(decode_rpo(&buf), Err(FormatError::InvalidMagic));
    let r = convert_buffer(buf, "x");
    assert_eq!(r.unwrap_err(), ConvertError::Format(FormatError::InvalidMagic));
    assert_eq!(decode_rpo(&[]), Err(FormatError::InvalidMagic));
    assert_eq!(decode_rpo(&[0x52]), Err(FormatError::InvalidMagic));
}

#[test]
fn compressed_buffer_round_trips() {
    let raw = tri_buffer();
    let mut enc = flate2::write::DeflateEncoder::new(Vec::new(), flate2::Compression::default());
    enc.write_all(&raw).unwrap();
    let compressed = enc.finish().unwrap();
    let mut buf = vec![0x78u8, 0x9c];
    buf.extend_from_slice(&compressed);
    assert_ne!(buf[2..], raw[..]);
    let a = convert_buffer(buf, "mesh").unwrap();
    let b = convert_buffer(raw, "mesh").unwrap();
    assert_eq!(a.json, b.json);
    assert_eq!(a.bin, b.bin);
}

#[test]
fn corrupt_deflate_stream_fails() {
    let buf = vec![0x78u8, 0x9c, 0xff, 0xff, 0xff, 0xff, 0xff];
    assert_eq!(decode_rpo(&buf), Err(FormatError::InvalidMagic));
}

#[test]
fn missing_terminator_fails() {
    let mut v = b"RPO1".to_vec();
    v.extend_from_slice(&1u32.to_le_bytes());
    v.extend_from_slice(&6u32.to_le_bytes());
    // words that never form the zero-then-large terminator
    for _ in 0..8 {
        v.extend_from_slice(&3u32.to_le_bytes());
    }
    assert_eq!(decode_rpo(&v), Err(FormatError::HeaderNotFound));
}

#[test]
fn short_preamble_fails() {
    assert_eq!(decode_rpo(b"RPO1\x01\x00"), Err(FormatError::TruncatedData));
}

#[test]
fn truncated_vertex_data_fails() {
    let mut buf = tri_buffer();
    buf.truncate(buf.len() - 10);
    assert_eq!(decode_rpo(&buf), Err(FormatError::TruncatedData));
}

#[test]
fn face_index_out_of_range_fails() {
    let buf = rpo1_buffer(
        7,
        &[vert([1.0, 0.0, 0.0], [1.0, 1.0, 1.0], 0.0)],
        &[[0, 0, 9]],
    );
    assert_eq!(decode_rpo(&buf), Err(FormatError::TruncatedData));
}

#[test]
fn empty_mesh_fails() {
    let buf = rpo1_buffer(7, &[vert([1.0, 0.0, 0.0], [1.0, 1.0, 1.0], 0.0)], &[]);
    let (vs, fs) = decode_rpo(&buf).unwrap();
    assert_eq!(
        segment_materials(&vs, &fs).unwrap_err(),
        FormatError::EmptyMesh
    );
    let r = convert_buffer(buf, "m");
    assert_eq!(r.unwrap_err(), ConvertError::Format(FormatError::EmptyMesh));
}

#[test]
fn container_layout_and_header() {
    let glb = convert_buffer(tri_buffer(), "tri").unwrap();
    let bytes = glb.to_bytes();
    assert_eq!(&bytes[0..4], b"glTF");
    assert_eq!(u32::from_le_bytes(bytes[4..8].try_into().unwrap()), 2);
    let total = u32::from_le_bytes(bytes[8..12].try_into().unwrap()) as usize;
    assert_eq!(total, bytes.len());
    let jlen = u32::from_le_bytes(bytes[12..16].try_into().unwrap()) as usize;
    assert_eq!(&bytes[16..20], b"JSON");
    assert_eq!(jlen % 4, 0);
    let blen_off = 20 + jlen;
    let blen = u32::from_le_bytes(bytes[blen_off..blen_off + 4].try_into().unwrap()) as usize;
    assert_eq!(&bytes[blen_off + 4..blen_off + 8], b"BIN\0");
    assert_eq!(blen % 4, 0);
    assert_eq!(total, 12 + 8 + jlen + 8 + blen);
    // JSON padding is spaces, up to the declared chunk length
    for i in glb.json.len()..jlen {
        assert_eq!(bytes[20 + i], b' ');
    }
}

#[test]
fn binary_buffer_layout() {
    let glb = convert_buffer(tri_buffer(), "tri").unwrap();
    // 3 flattened vertices, 24 bytes each, then 3 indices of 4 bytes
    assert_eq!(glb.bin.len(), 3 * 24 + 3 * 4);
    // first vertex entry: position then color
    assert_eq!(
        u32::from_le_bytes(glb.bin[0..4].try_into().unwrap()),
        1.0f32.to_bits()
    );
    assert_eq!(
        u32::from_le_bytes(glb.bin[12..16].try_into().unwrap()),
        0.5f32.to_bits()
    );
    // index block holds 0, 1, 2
    let base = 3 * 24;
    for k in 0..3 {
        assert_eq!(
            u32::from_le_bytes(glb.bin[base + 4 * k..base + 4 * k + 4].try_into().unwrap()),
            k as u32
        );
    }
}

#[test]
fn json_document_content() {
    let glb = convert_buffer(tri_buffer(), "tri").unwrap();
    let json = String::from_utf8(glb.json.clone()).unwrap();
    assert!(json.contains("\"asset\":{\"version\":\"2.0\"}"));
    assert!(json.contains("\"count\":3"));
    assert!(json.contains("\"max\":[4,5,7]"));
    assert!(json.contains("\"min\":[-1,0,3]"));
    assert!(json.contains("\"byteStride\":24"));
    assert!(json.contains("\"target\":34962"));
    assert!(json.contains("\"target\":34963"));
    assert!(json.contains("\"emissiveFactor\":[0,0,0]"));
    assert!(json.contains("\"name\":\"tri\""));
    assert!(json.contains("\"mode\":4"));
    assert!(json.contains("\"attributes\":{\"COLOR_0\":1,\"POSITION\":0}"));
}

#[test]
fn mesh_name_is_escaped() {
    let glb = convert_buffer(tri_buffer(), "a\"b\\c\n").unwrap();
    let json = String::from_utf8(glb.json.clone()).unwrap();
    assert!(json.contains("\"name\":\"a\\\"b\\\\c\\u000a\""));
}

#[test]
fn output_parses_as_gltf() {
    let c = [0.5f32, 0.25, 1.0];
    let vertices = vec![
        vert([2.0, 0.0, 0.0], c, 0.0),
        vert([1.0, 0.0, 0.0], c, 0.0),
        vert([0.0, 1.0, 0.0], c, 0.0),
        vert([0.0, 0.0, 1.0], c, 5.0),
        vert([1.0, 1.0, 0.0], c, 5.0),
        vert([0.0, 1.0, 1.0], c, 5.0),
    ];
    let buf = rpo1_buffer(7, &vertices, &[[0, 1, 2], [3, 4, 5]]);
    let bytes = convert_buffer(buf, "shell").unwrap().to_bytes();
    let parsed = gltf::binary::Glb::from_slice(&bytes).unwrap();
    assert_eq!(&parsed.header.magic, b"glTF");
    assert_eq!(parsed.header.version, 2);
    assert_eq!(parsed.header.length as usize, bytes.len());
    let doc = gltf::Gltf::from_slice(&bytes).unwrap();
    assert_eq!(doc.meshes().count(), 1);
    let mesh = doc.meshes().next().unwrap();
    assert_eq!(mesh.primitives().count(), 2);
    assert_eq!(doc.materials().count(), 2);
    let mats: Vec<_> = doc.materials().collect();
    assert_eq!(mats[1].emissive_factor(), [2.5, 1.25, 5.0]);
    assert_eq!(doc.accessors().count(), 4);
    assert_eq!(doc.nodes().count(), 1);
    assert_eq!(doc.scenes().count(), 1);
    let glb = convert_buffer_again();
    assert_eq!(doc.buffers().next().unwrap().length(), glb.bin.len());
}

fn convert_buffer_again() -> rpo_glb::glb::Glb {
    let c = [0.5f32, 0.25, 1.0];
    let vertices = vec![
        vert([2.0, 0.0, 0.0], c, 0.0),
        vert([1.0, 0.0, 0.0], c, 0.0),
        vert([0.0, 1.0, 0.0], c, 0.0),
        vert([0.0, 0.0, 1.0], c, 5.0),
        vert([1.0, 1.0, 0.0], c, 5.0),
        vert([0.0, 1.0, 1.0], c, 5.0),
    ];
    let buf = rpo1_buffer(7, &vertices, &[[0, 1, 2], [3, 4, 5]]);
    convert_buffer(buf, "shell").unwrap()
}

#[test]
fn non_finite_positions_render_as_null() {
    let buf = rpo1_buffer(
        7,
        &[
            vert([1.0, f32::NAN, 3.0], [0.5, 0.5, 0.5], 0.0),
            vert([4.0, 5.0, f32::INFINITY], [0.5, 0.5, 0.5], 0.0),
            vert([-1.0, 0.5, 7.0], [0.5, 0.5, 0.5], 0.0),
        ],
        &[[0, 1, 2]],
    );
    let glb = convert_buffer(buf, "odd").unwrap();
    let json = String::from_utf8(glb.json.clone()).unwrap();
    assert!(json.contains("null"));
}

#[test]
fn encode_respects_flatten_order() {
    // a vertex referenced twice appears twice in the stream
    let c = [1.0f32, 1.0, 1.0];
    let vertices = vec![
        vert([1.0, 0.0, 0.0], c, 0.0),
        vert([2.0, 0.0, 0.0], c, 0.0),
        vert([3.0, 0.0, 0.0], c, 0.0),
    ];
    let buf = rpo1_buffer(7, &vertices, &[[0, 1, 2], [2, 1, 0]]);
    let (vs, fs) = decode_rpo(&buf).unwrap();
    let flat = flatten(&fs);
    assert_eq!(flat, vec![0u16, 1, 2, 2, 1, 0]);
    let groups = segment_materials(&vs, &fs).unwrap();
    let glb = encode_glb(&vs, &flat, &groups, "m").unwrap();
    assert_eq!(glb.bin.len(), 6 * 24 + 6 * 4);
    // stream position 3 carries vertex record 2
    assert_eq!(
        u32::from_le_bytes(glb.bin[3 * 24..3 * 24 + 4].try_into().unwrap()),
        3.0f32.to_bits()
    );
}

#[test]
fn extra_tokens_are_consumed() {
    // nine tokens per vertex: the two beyond the emissive slot are read
    // but carry nothing
    let vertices = vec![
        vec![1.0f32, 0.0, 0.0, 1.0, 1.0, 1.0, 0.0, 9.0, 9.0],
        vec![2.0f32, 0.0, 0.0, 1.0, 1.0, 1.0, 0.0, 9.0, 9.0],
        vec![3.0f32, 0.0, 0.0, 1.0, 1.0, 1.0, 0.0, 9.0, 9.0],
    ];
    let buf = rpo1_buffer(9, &vertices, &[[0, 1, 2]]);
    let (vs, fs) = decode_rpo(&buf).unwrap();
    assert_eq!(vs[0].tokens.len(), 9);
    let groups = segment_materials(&vs, &fs).unwrap();
    assert_eq!(groups.len(), 1);
    assert_eq!(groups[0].indices, vec![0u32, 1, 2]);
}

#[test]
fn token_count_accumulates_over_chunks() {
    // two attribute chunks of three and four floats, a zero word whose
    // follower is small (the scan moves on), then the real terminator
    let mut v = b"RPO1".to_vec();
    v.extend_from_slice(&2u32.to_le_bytes());
    v.extend_from_slice(&6u32.to_le_bytes());
    v.extend_from_slice(&3u32.to_le_bytes());
    v.extend_from_slice(&0x1406u32.to_le_bytes());
    v.extend_from_slice(&4u32.to_le_bytes());
    v.extend_from_slice(&0x1406u32.to_le_bytes());
    v.extend_from_slice(&0u32.to_le_bytes());
    v.extend_from_slice(&2u32.to_le_bytes());
    v.extend_from_slice(&0u32.to_le_bytes());
    // vertex data: two records of seven floats; face [0, 1, 0]
    for t in [
        1.0f32, 0.0, 0.0, 1.0, 1.0, 1.0, 0.0, 2.0, 0.0, 0.0, 1.0, 1.0, 1.0, 0.0,
    ] {
        v.extend_from_slice(&t.to_bits().to_le_bytes());
    }
    for i in [0u16, 1, 0] {
        v.extend_from_slice(&i.to_le_bytes());
    }
    let (vs, fs) = decode_rpo(&v).unwrap();
    assert_eq!(vs.len(), 2);
    assert_eq!(vs[0].tokens.len(), 7);
    assert_eq!(vs[0].tokens[0], 1.0f32.to_bits());
    assert_eq!(vs[1].tokens[0], 2.0f32.to_bits());
    assert_eq!(fs.len(), 1);
    assert_eq!((fs[0].a, fs[0].b, fs[0].c), (0, 1, 0));
}

#[test]
fn many_groups_take_numbered_names() {
    let c = [1.0f32, 1.0, 1.0];
    let mut vertices = Vec::new();
    let mut faces = Vec::new();
    for k in 0..12u16 {
        let em = (k + 1) as f32;
        vertices.push(vert([k as f32 + 1.0, 0.0, 0.0], c, em));
        vertices.push(vert([0.0, k as f32, 0.0], c, em));
        vertices.push(vert([0.0, 0.0, k as f32], c, em));
        faces.push([3 * k, 3 * k + 1, 3 * k + 2]);
    }
    let buf = rpo1_buffer(7, &vertices, &faces);
    let (vs, fs) = decode_rpo(&buf).unwrap();
    let groups = segment_materials(&vs, &fs).unwrap();
    assert_eq!(groups.len(), 12);
    assert_eq!(groups[0].name, "default");
    assert_eq!(groups[1].name, "emissive1");
    assert_eq!(groups[10].name, "emissive10");
    assert_eq!(groups[11].name, "emissive11");
}
