//! Unit headers and parameter-set bodies.
//!
//! A unit payload starts with a 32-bit header: the unit type (5 bits: 0 parameter
//! set, 1 atlas data, 2 occupancy video, 3 geometry video, 4 attribute video), then,
//! for every type but the parameter set, the parameter-set id (4 bits) and the atlas
//! id (6 bits). The body follows the header.
//!
//! A parameter-set body holds its id (8 bits), the atlas count (8 bits), then per
//! atlas the frame width and height (16 bits each), the attribute count (8 bits)
//! and feature flags (8 bits). Only atlases with at most one attribute and with no
//! feature flag set are supported.
use vstd::prelude::*;
use crate::bitreader::{BitReader, bits_value, lemma_bits_bound};

verus! {

#[derive(Debug, Clone, Copy, PartialEq, Eq, Structural)]
pub enum UnitKind {
    ParameterSet,
    AtlasData,
    Occupancy,
    Geometry,
    Attribute,
}

#[derive(Debug, Clone, Copy, PartialEq, Eq, Structural)]
pub enum UnitError {
    TruncatedHeader,
    UnknownUnitType,
    OutOfData,
    UnsupportedAttributes,
    UnsupportedFlags,
}

#[derive(Debug, Clone, Copy, PartialEq, Eq, Structural)]
pub struct UnitHeader {
    pub kind: UnitKind,
    pub vps_id: u8,
    pub atlas_id: u8,
}

#[derive(Debug, Clone, Copy, PartialEq, Eq, Structural)]
pub struct AtlasInfo {
    pub width: u16,
    pub height: u16,
    pub has_attribute: bool,
}

#[derive(Debug, Clone)]
pub struct ParameterSet {
    pub id: u8,
    pub atlases: Vec<AtlasInfo>,
}

pub const HEADER_BYTES: usize = 4;

pub const ATLAS_INFO_BITS: usize = 48;

pub open spec fn kind_of(t: nat) -> UnitKind {
    if t == 0 {
        UnitKind::ParameterSet
    } else if t == 1 {
        UnitKind::AtlasData
    } else if t == 2 {
        UnitKind::Occupancy
    } else if t == 3 {
        UnitKind::Geometry
    } else {
        UnitKind::Attribute
    }
}

pub open spec fn header_of(p: Seq<u8>) -> Result<UnitHeader, UnitError> {
    if p.len() < HEADER_BYTES {
        Err(UnitError::TruncatedHeader)
    } else {
        let h = p.subrange(0, 4);
        let t = bits_value(h, 0, 5);
        if t > 4 {
            Err(UnitError::UnknownUnitType)
        } else if t == 0 {
            Ok(UnitHeader { kind: UnitKind::ParameterSet, vps_id: 0, atlas_id: 0 })
        } else {
            Ok(
                UnitHeader {
                    kind: kind_of(t),
                    vps_id: bits_value(h, 5, 4) as u8,
                    atlas_id: bits_value(h, 9, 6) as u8,
                },
            )
        }
    }
}

/// The body of a unit: what follows its header.
pub open spec fn body_of(p: Seq<u8>) -> Seq<u8> {
    p.subrange(HEADER_BYTES as int, p.len() as int)
}

pub fn parse_header(payload: &Vec<u8>) -> (r: Result<UnitHeader, UnitError>)
    ensures
        r == header_of(payload@),
{
    if payload.len() < HEADER_BYTES {
        return Err(UnitError::TruncatedHeader);
    }
    let head = vec![payload[0], payload[1], payload[2], payload[3]];
    assert(head@ =~= payload@.subrange(0, 4));
    proof {
        lemma_bits_bound(head@, 0, 5);
        vstd::arithmetic::power2::lemma2_to64();
    }
    let mut r = BitReader::new(head);
    let t = r.read_bits(5).unwrap();
    if t > 4 {
        return Err(UnitError::UnknownUnitType);
    }
    if t == 0 {
        return Ok(UnitHeader { kind: UnitKind::ParameterSet, vps_id: 0, atlas_id: 0 });
    }
    let kind = if t == 1 {
        UnitKind::AtlasData
    } else if t == 2 {
        UnitKind::Occupancy
    } else if t == 3 {
        UnitKind::Geometry
    } else {
        UnitKind::Attribute
    };
    let vps_id = r.read_bits(4).unwrap();
    let atlas_id = r.read_bits(6).unwrap();
    proof {
        lemma_bits_bound(head@, 5, 4);
        lemma_bits_bound(head@, 9, 6);
        vstd::arithmetic::power2::lemma2_to64();
    }
    Ok(UnitHeader { kind, vps_id: vps_id as u8, atlas_id: atlas_id as u8 })
}

pub fn unit_body(payload: &Vec<u8>) -> (r: Vec<u8>)
    requires
        payload@.len() >= HEADER_BYTES,
    ensures
        r@ == body_of(payload@),
{
    let mut out: Vec<u8> = Vec::new();
    let mut i: usize = HEADER_BYTES;
    while i < payload.len()
        invariant
            HEADER_BYTES <= i <= payload@.len(),
            out@ == payload@.subrange(HEADER_BYTES as int, i as int),
        decreases payload@.len() - i,
    {
        out.push(payload[i]);
        assert(out@ =~= payload@.subrange(HEADER_BYTES as int, i + 1));
        i = i + 1;
    }
    out
}

pub open spec fn atlas_info_at(body: Seq<u8>, i: int) -> AtlasInfo {
    let pos = 16 + ATLAS_INFO_BITS * i;
    AtlasInfo {
        width: bits_value(body, pos, 16) as u16,
        height: bits_value(body, pos + 16, 16) as u16,
        has_attribute: bits_value(body, pos + 32, 8) == 1,
    }
}

/// The first unsupported entry among the first `n` atlases, if any.
pub open spec fn atlas_support(body: Seq<u8>, n: nat) -> Result<(), UnitError>
    decreases n,
{
    if n == 0 {
        Ok(())
    } else {
        match atlas_support(body, (n - 1) as nat) {
            Ok(()) => {
                let pos = 16 + ATLAS_INFO_BITS * (n - 1);
                if bits_value(body, pos + 32, 8) > 1 {
                    Err(UnitError::UnsupportedAttributes)
                } else if bits_value(body, pos + 40, 8) != 0 {
                    Err(UnitError::UnsupportedFlags)
                } else {
                    Ok(())
                }
            },
            Err(e) => Err(e),
        }
    }
}

pub open spec fn atlas_count(body: Seq<u8>) -> nat {
    bits_value(body, 8, 8)
}

/// What a parameter-set body decodes to: its id and its atlases.
pub open spec fn parameter_set_of(body: Seq<u8>) -> Result<(u8, Seq<AtlasInfo>), UnitError> {
    if body.len() < 2 || body.len() * 8 < 16 + ATLAS_INFO_BITS * atlas_count(body) {
        Err(UnitError::OutOfData)
    } else {
        match atlas_support(body, atlas_count(body)) {
            Ok(()) => Ok(
                (
                    bits_value(body, 0, 8) as u8,
                    Seq::new(atlas_count(body), |i: int| atlas_info_at(body, i)),
                ),
            ),
            Err(e) => Err(e),
        }
    }
}

proof fn lemma_support_err_stays(body: Seq<u8>, k: nat, m: nat)
    requires
        k <= m,
        atlas_support(body, k) is Err,
    ensures
        atlas_support(body, m) == atlas_support(body, k),
    decreases m - k,
{
    if m > k {
        lemma_support_err_stays(body, k, (m - 1) as nat);
    }
}

pub fn decode_parameter_set(body: &Vec<u8>) -> (r: Result<ParameterSet, UnitError>)
    requires
        body@.len() * 8 <= usize::MAX,
    ensures
        match parameter_set_of(body@) {
            Ok((id, atlases)) => r matches Ok(ps) && ps.id == id && ps.atlases@ == atlases,
            Err(e) => r matches Err(e2) && e2 == e,
        },
{
    if body.len() < 2 {
        return Err(UnitError::OutOfData);
    }
    let mut r = BitReader::new(body.clone());
    let id = r.read_u8().unwrap();
    let count = r.read_u8().unwrap();
    proof {
        lemma_bits_bound(body@, 8, 8);
        vstd::arithmetic::power2::lemma2_to64();
    }
    if r.remaining_bytes() < 6 * count as usize {
        return Err(UnitError::OutOfData);
    }
    let mut atlases: Vec<AtlasInfo> = Vec::new();
    let mut i: u8 = 0;
    while i < count
        invariant
            r.wf(),
            r.data@ == body@,
            body@.len() * 8 <= usize::MAX,
            count == atlas_count(body@),
            body@.len() * 8 >= 16 + ATLAS_INFO_BITS * count,
            i <= count,
            r.pos == 16 + ATLAS_INFO_BITS * i,
            atlas_support(body@, i as nat) == Ok::<(), UnitError>(()),
            atlases@ == Seq::new(i as nat, |j: int| atlas_info_at(body@, j)),
        decreases count - i,
    {
        let ghost pos = r.pos as int;
        let width = r.read_u16().unwrap();
        let height = r.read_u16().unwrap();
        let attrs = r.read_u8().unwrap();
        let flags = r.read_u8().unwrap();
        proof {
            lemma_bits_bound(body@, pos + 32, 8);
            lemma_bits_bound(body@, pos + 40, 8);
            vstd::arithmetic::power2::lemma2_to64();
        }
        if attrs > 1 {
            proof {
                lemma_support_err_stays(body@, (i + 1) as nat, count as nat);
            }
            return Err(UnitError::UnsupportedAttributes);
        }
        if flags != 0 {
            proof {
                lemma_support_err_stays(body@, (i + 1) as nat, count as nat);
            }
            return Err(UnitError::UnsupportedFlags);
        }
        atlases.push(AtlasInfo { width, height, has_attribute: attrs == 1 });
        assert(atlases@ =~= Seq::new((i + 1) as nat, |j: int| atlas_info_at(body@, j)));
        i = i + 1;
    }
    Ok(ParameterSet { id, atlases })
}

} // verus!
