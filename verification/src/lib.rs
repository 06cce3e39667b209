//! Converter from the RPO/RPOZ binary mesh format to the glTF 2.0 binary
//! container (GLB).
//!
//! Floating-point values never appear as `f32` in this crate: every float is
//! carried as its IEEE 754 bit pattern in a `u32`, and all comparisons and
//! layout decisions are made on those bit patterns.

use vstd::prelude::*;
use vstd::arithmetic::div_mod::lemma_multiply_divide_lt;

pub mod decimal;
pub mod rpo;
pub mod segment;
pub mod glb;
pub mod fbits;
pub mod readable;

verus! {

/// Failures while decoding an RPO/RPOZ byte buffer.
#[derive(Clone, Copy, Debug, PartialEq, Eq, Structural)]
pub enum FormatError {
    /// The buffer starts with neither the `RPO1` magic nor the RPOZ marker,
    /// or the compressed payload could not be inflated.
    InvalidMagic,
    /// The header scan ran off the end of the buffer.
    HeaderNotFound,
    /// A vertex, face or fixed-offset read would pass the end of the buffer.
    TruncatedData,
    /// The flattened triangle-vertex stream is empty.
    EmptyMesh,
}

/// Failures while packing the GLB container.
#[derive(Clone, Copy, Debug, PartialEq, Eq, Structural)]
pub enum EncodeError {
    /// The container's total length does not fit the 32-bit header field.
    SizeLimitExceeded,
}

/// Any failure of one conversion: while decoding or while encoding.
#[derive(Clone, Copy, Debug, PartialEq, Eq, Structural)]
pub enum ConvertError {
    Format(FormatError),
    Encode(EncodeError),
}

/// The whole conversion of one raw buffer: decode, segment, encode.
/// Yields the JSON document and binary buffer of the GLB asset, or the
/// first error the pipeline meets.
pub open spec fn spec_convert(data: Seq<u8>, name: Seq<char>) -> Result<
    (Seq<u8>, Seq<u8>),
    ConvertError,
> {
    match rpo::spec_decode(data) {
        Err(e) => Err(ConvertError::Format(e)),
        Ok(d) => {
            if d.1.len() == 0 {
                Err(ConvertError::Format(FormatError::EmptyMesh))
            } else {
                let flat = segment::spec_flat(d.1);
                let gs = segment::spec_groups(d.0, flat);
                let json = glb::spec_gltf_json(
                    flat.len(),
                    glb::spec_bmin(d.0, flat),
                    glb::spec_bmax(d.0, flat),
                    gs,
                    vstd::utf8::encode_utf8(name),
                );
                let bin = glb::spec_buffer(d.0, flat, gs);
                if glb::spec_total(json.len(), bin.len()) > 0xffff_ffff {
                    Err(ConvertError::Encode(EncodeError::SizeLimitExceeded))
                } else {
                    Ok((json, bin))
                }
            }
        },
    }
}

/// Convert one RPO/RPOZ buffer into a GLB asset named `name`.
pub fn convert_buffer(rpo_data: Vec<u8>, name: &str) -> (r: Result<glb::Glb, ConvertError>)
    ensures
        match r {
            Ok(g) => spec_convert(rpo_data@, name@) == Ok::<_, ConvertError>((g.json@, g.bin@))
                && glb::spec_total(g.json@.len(), g.bin@.len()) <= 0xffff_ffff,
            Err(e) => spec_convert(rpo_data@, name@) == Err::<(Seq<u8>, Seq<u8>), _>(e),
        },
{
    let decoded = match rpo::decode_rpo(rpo_data.as_slice()) {
        Ok(p) => p,
        Err(e) => {
            return Err(ConvertError::Format(e));
        },
    };
    let (vertices, faces) = decoded;
    let ghost vsv = vertices@.map_values(|v: rpo::VertexRecord| v@);
    let groups = match segment::segment_materials(&vertices, &faces) {
        Ok(g) => g,
        Err(e) => {
            return Err(ConvertError::Format(e));
        },
    };
    let flat = segment::flatten(&faces);
    proof {
        assert forall|i: int| 0 <= i < flat@.len() implies (#[trigger] flat@[i] as nat)
            < vertices@.len() as nat by {
            lemma_multiply_divide_lt(i, 3, faces@.len() as int);
            assert(flat@[i] == segment::spec_flat_at(faces@, i));
        }
        segment::lemma_group_sizes(vsv, flat@);
    }
    match glb::encode_glb(&vertices, &flat, &groups, name) {
        Ok(g) => Ok(g),
        Err(e) => Err(ConvertError::Encode(e)),
    }
}

} // verus!
