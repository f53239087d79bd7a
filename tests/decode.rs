use tmc2rs::bitreader::{BitReader, ReadError};
use tmc2rs::container::{split_units, FramingError};
use tmc2rs::context::{color_planes_from_raw, planes_from_raw, AtlasState, UnitFault, VideoFrames};
use tmc2rs::geometry::{Color, ColorPlane, Patch, Plane, Point};
use tmc2rs::pass::{Pass, PassError};
use tmc2rs::patches::{decode_atlas_data, resolve, AtlasError, PatchEdit};
use tmc2rs::reconstruct::{reconstruct_frame, FrameError};
use tmc2rs::units::{decode_parameter_set, parse_header, AtlasInfo, UnitError, UnitKind};
use tmc2rs::{BitstreamSource, Decoder, Params};
use std::path::PathBuf;

fn header(kind: u32, vps: u32, atlas: u32) -> Vec<u8> {
    let v: u32 = (kind << 27) | (vps << 23) | (atlas << 17);
    v.to_be_bytes().to_vec()
}

fn unit(payload: Vec<u8>) -> Vec<u8> {
    let mut out = (payload.len() as u32).to_be_bytes().to_vec();
    out.extend(payload);
    out
}

fn stream(units: Vec<Vec<u8>>) -> Vec<u8> {
    let mut out = vec![0x60u8];
    for u in units {
        out.extend(unit(u));
    }
    out
}

fn vps(width: u16, height: u16, attrs: u8) -> Vec<u8> {
    let mut p = header(0, 0, 0);
    p.extend([0u8, 1u8]);
    p.extend(width.to_be_bytes());
    p.extend(height.to_be_bytes());
    p.extend([attrs, 0u8]);
    p
}

fn patch_bytes(p: &Patch) -> Vec<u8> {
    let mut b = vec![p.axis, p.swap_uv as u8];
    for f in [p.u0, p.v0, p.size_u, p.size_v, p.u1, p.v1, p.d1] {
        b.extend(f.to_be_bytes());
    }
    b
}

fn patch(size: u16, u1: u16, v1: u16, d1: u16) -> Patch {
    Patch { axis: 2, swap_uv: false, u0: 0, v0: 0, size_u: size, size_v: size, u1, v1, d1 }
}

fn intra_frames(lists: &[Vec<Patch>]) -> Vec<u8> {
    let mut b = vec![lists.len() as u8];
    for l in lists {
        b.extend([0u8, l.len() as u8]);
        for p in l {
            b.extend(patch_bytes(p));
        }
    }
    b
}

fn atlas_unit(body: Vec<u8>) -> Vec<u8> {
    let mut p = header(1, 0, 0);
    p.extend(body);
    p
}

fn video_unit(kind: u32, samples: Vec<u8>) -> Vec<u8> {
    let mut p = header(kind, 0, 0);
    p.extend(samples);
    p
}

/// Test video decoder: one byte per sample, frames back to back.
fn raw_video(kind: UnitKind, info: AtlasInfo, body: &Vec<u8>) -> Option<VideoFrames> {
    let n = info.width as usize * info.height as usize;
    if n == 0 || body.len() % n != 0 {
        return None;
    }
    let frames = body.chunks(n);
    if kind == UnitKind::Attribute {
        Some(VideoFrames::Colors(
            frames
                .map(|f| ColorPlane {
                    width: info.width as usize,
                    height: info.height as usize,
                    samples: f.iter().map(|&c| Color { r: c, g: c, b: c }).collect(),
                })
                .collect(),
        ))
    } else {
        Some(VideoFrames::Samples(
            frames
                .map(|f| Plane {
                    width: info.width as usize,
                    height: info.height as usize,
                    samples: f.iter().map(|&s| s as u16).collect(),
                })
                .collect(),
        ))
    }
}

fn all_frames(data: &Vec<u8>) -> (Vec<tmc2rs::PointSet3>, Option<PassError>) {
    let mut pass = Pass::new(data);
    let mut out = Vec::new();
    while let Some(f) = pass.next_frame(&raw_video) {
        out.push(f);
    }
    (out, pass.error)
}

#[test]
fn bit_reader_reads_fields_msb_first() {
    let mut r = BitReader::new(vec![0b1010_0000, 0xff]);
    assert_eq!(r.read_bits(3), Ok(5));
    assert_eq!(r.read_bits(5), Ok(0));
    assert_eq!(r.read_u8(), Ok(0xff));
    assert_eq!(r.read_bits(1), Err(ReadError::OutOfData));
    let mut r = BitReader::new(vec![0x12, 0x34]);
    assert_eq!(r.read_u16(), Ok(0x1234));
    assert_eq!(r.remaining_bytes(), 0);
}

#[test]
fn split_units_frames_payloads() {
    let data = vec![0x00, 2, 7, 8, 0, 1, 9];
    let units = split_units(&data).unwrap();
    assert_eq!(units, vec![vec![7, 8], vec![], vec![9]]);
    assert_eq!(split_units(&vec![]), Err(FramingError::MissingHeader));
    assert_eq!(split_units(&vec![0x20, 0]), Err(FramingError::TruncatedLength));
    assert_eq!(split_units(&vec![0x00, 3, 1]), Err(FramingError::LengthExceedsRemaining));
}

#[test]
fn unit_headers() {
    let h = parse_header(&header(3, 2, 5)).unwrap();
    assert_eq!(h.kind, UnitKind::Geometry);
    assert_eq!(h.vps_id, 2);
    assert_eq!(h.atlas_id, 5);
    assert_eq!(parse_header(&header(9, 0, 0)), Err(UnitError::UnknownUnitType));
    assert_eq!(parse_header(&vec![0, 0]), Err(UnitError::TruncatedHeader));
}

#[test]
fn parameter_set_fields_and_errors() {
    let body = vps(8, 4, 1)[4..].to_vec();
    let ps = decode_parameter_set(&body).unwrap();
    assert_eq!(ps.id, 0);
    assert_eq!(ps.atlases, vec![AtlasInfo { width: 8, height: 4, has_attribute: true }]);
    assert_eq!(decode_parameter_set(&vps(8, 4, 2)[4..].to_vec()).unwrap_err(), UnitError::UnsupportedAttributes);
    let mut flagged = body.clone();
    flagged[7] = 1;
    assert_eq!(decode_parameter_set(&flagged).unwrap_err(), UnitError::UnsupportedFlags);
    assert_eq!(decode_parameter_set(&vec![0, 1, 0]).unwrap_err(), UnitError::OutOfData);
}

#[test]
fn resolve_applies_edits_in_order() {
    let a = patch(2, 0, 0, 0);
    let b = patch(3, 1, 1, 1);
    let c = patch(4, 2, 2, 2);
    let out = resolve(&vec![a, b], &vec![PatchEdit::Remove(0), PatchEdit::Add(c), PatchEdit::Update(0, a)]).unwrap();
    assert_eq!(out, vec![a, c]);
    assert_eq!(resolve(&vec![a], &vec![PatchEdit::Remove(1)]), Err(AtlasError::UnresolvedReference));
}

#[test]
fn atlas_data_with_delta_frame() {
    let p1 = patch(8, 0, 0, 0);
    let p2 = patch(4, 10, 10, 10);
    let mut body = vec![2u8, 0, 1];
    body.extend(patch_bytes(&p1));
    body.extend([1u8, 2, 1, 0, 0]);
    body.extend(patch_bytes(&p2));
    let lists = decode_atlas_data(&body, None).unwrap();
    assert_eq!(lists, vec![vec![p1], vec![p2]]);
    assert_eq!(decode_atlas_data(&vec![1, 1, 0], None), Err(AtlasError::UnresolvedReference));
    assert_eq!(decode_atlas_data(&vec![1, 7, 0], None), Err(AtlasError::UnknownPatchMode));
    assert_eq!(decode_atlas_data(&vec![1, 0, 1, 3], None), Err(AtlasError::OutOfData));
    let mut bad_axis = vec![1u8, 0, 1];
    bad_axis.extend(patch_bytes(&Patch { axis: 3, ..p1 }));
    assert_eq!(decode_atlas_data(&bad_axis, None), Err(AtlasError::BadAxis));
}

#[test]
fn reconstruct_unprojects_along_each_axis() {
    let occ = Plane { width: 2, height: 1, samples: vec![1, 0] };
    let geo = Plane { width: 2, height: 1, samples: vec![5, 6] };
    let mut p = Patch { axis: 0, swap_uv: false, u0: 0, v0: 0, size_u: 2, size_v: 1, u1: 1, v1: 2, d1: 3 };
    let f = reconstruct_frame(&vec![p], &occ, &geo, None).unwrap();
    assert_eq!(f.positions, vec![Point { x: 8, y: 2, z: 1 }]);
    assert!(!f.with_colors && f.colors.is_empty());
    p.axis = 1;
    p.swap_uv = true;
    let f = reconstruct_frame(&vec![p], &occ, &geo, None).unwrap();
    assert_eq!(f.positions, vec![Point { x: 2, y: 8, z: 1 }]);
    let attr = ColorPlane { width: 2, height: 1, samples: vec![Color { r: 1, g: 2, b: 3 }, Color { r: 0, g: 0, b: 0 }] };
    let f = reconstruct_frame(&vec![p], &occ, &geo, Some(&attr)).unwrap();
    assert_eq!(f.colors, vec![Color { r: 1, g: 2, b: 3 }]);
    assert_eq!(f.colors.len(), f.positions.len());
}

#[test]
fn reconstruct_frame_errors() {
    let occ = Plane { width: 2, height: 2, samples: vec![1; 4] };
    let geo = Plane { width: 2, height: 1, samples: vec![1; 2] };
    assert_eq!(reconstruct_frame(&vec![], &occ, &geo, None).unwrap_err(), FrameError::BufferMismatch);
    let big = patch(3, 0, 0, 0);
    assert_eq!(reconstruct_frame(&vec![big], &occ, &occ, None).unwrap_err(), FrameError::PatchOutOfBounds);
}

#[test]
fn one_patch_scenario_emits_one_frame_of_64_points() {
    let data = stream(vec![
        vps(8, 8, 0),
        atlas_unit(intra_frames(&[vec![patch(8, 0, 0, 0)]])),
        video_unit(2, vec![1; 64]),
        video_unit(3, vec![100; 64]),
    ]);
    let (frames, err) = all_frames(&data);
    assert_eq!(err, None);
    assert_eq!(frames.len(), 1);
    let f = &frames[0];
    assert_eq!(f.positions.len(), 64);
    assert!(!f.with_colors);
    assert!(f.colors.is_empty());
    assert!(f.positions.iter().all(|p| p.z == 100));
    assert_eq!(f.positions[0], Point { x: 0, y: 0, z: 100 });
    assert_eq!(f.positions[9], Point { x: 1, y: 1, z: 100 });
}

#[test]
fn oversized_length_field_aborts_with_framing_error() {
    let mut data = stream(vec![vps(8, 8, 0)]);
    let ad = atlas_unit(intra_frames(&[vec![patch(8, 0, 0, 0)]]));
    data.extend((ad.len() as u32 + 100).to_be_bytes());
    data.extend(ad);
    let (frames, err) = all_frames(&data);
    assert!(frames.is_empty());
    assert_eq!(err, Some(PassError::Framing(FramingError::LengthExceedsRemaining)));
}

#[test]
fn delta_frame_uses_only_the_new_patch() {
    let p1 = patch(2, 0, 0, 0);
    let p2 = Patch { u0: 2, v0: 2, u1: 50, v1: 50, ..patch(2, 0, 0, 0) };
    let mut body = vec![2u8, 0, 1];
    body.extend(patch_bytes(&p1));
    body.extend([1u8, 2, 1, 0, 0]);
    body.extend(patch_bytes(&p2));
    let data = stream(vec![
        vps(4, 4, 0),
        atlas_unit(body),
        video_unit(2, vec![1; 32]),
        video_unit(3, vec![7; 32]),
    ]);
    let (frames, _) = all_frames(&data);
    assert_eq!(frames.len(), 2);
    assert_eq!(frames[0].positions.len(), 4);
    assert_eq!(frames[1].positions.len(), 4);
    assert!(frames[1].positions.iter().all(|p| p.x >= 50 && p.y >= 50));
    assert!(frames[0].positions.iter().all(|p| p.x < 2 && p.y < 2));
}

#[test]
fn frames_need_every_buffer_and_come_in_order() {
    let l = vec![patch(2, 0, 0, 0)];
    let data = stream(vec![
        vps(2, 2, 1),
        atlas_unit(intra_frames(&[l.clone(), l.clone(), l.clone()])),
        video_unit(2, vec![1; 12]),
        video_unit(3, vec![1, 1, 1, 1, 2, 2, 2, 2, 3, 3, 3, 3]),
        video_unit(4, vec![9; 8]),
    ]);
    let (frames, err) = all_frames(&data);
    assert_eq!(err, None);
    assert_eq!(frames.len(), 2);
    assert_eq!(frames[0].positions[0].z, 1);
    assert_eq!(frames[1].positions[0].z, 2);
    for f in &frames {
        assert!(f.with_colors);
        assert_eq!(f.colors.len(), f.positions.len());
    }
}

#[test]
fn decoding_twice_gives_the_same_points() {
    let data = stream(vec![
        vps(4, 4, 0),
        atlas_unit(intra_frames(&[vec![patch(4, 0, 0, 0), patch(2, 9, 9, 9)]])),
        video_unit(2, vec![1, 0, 1, 1, 0, 1, 1, 1, 1, 1, 0, 1, 1, 1, 1, 0]),
        video_unit(3, (0..16).collect()),
    ]);
    let (a, _) = all_frames(&data);
    let (b, _) = all_frames(&data);
    assert_eq!(a.len(), 1);
    assert_eq!(a[0].positions, b[0].positions);
    assert_eq!(a[0].positions.len(), 12 + 2);
}

#[test]
fn unknown_unit_type_ends_the_pass() {
    let data = stream(vec![vps(2, 2, 0), header(7, 0, 0)]);
    let (frames, err) = all_frames(&data);
    assert!(frames.is_empty());
    assert_eq!(err, Some(PassError::Unit(UnitError::UnknownUnitType)));
}

#[test]
fn start_marks_the_decoder_started() {
    let mut d = Decoder::from_memory(vec![1, 2, 3]);
    assert!(!d.is_started());
    let _sink = d.start();
    assert!(d.is_started());
}

#[test]
fn frames_flow_through_the_channel() {
    let mut d = Decoder::from_memory(vec![]);
    let sink = d.start();
    let empty = Plane { width: 0, height: 0, samples: vec![] };
    let f = reconstruct_frame(&vec![], &empty, &empty, None).unwrap();
    assert!(sink.publish(f));
    drop(sink);
    assert!(d.recv_frame().is_some());
    assert!(d.recv_frame().is_none());
    assert!(d.recv_frame().is_none());
}

#[test]
fn params_defaults() {
    let p = Params::new(PathBuf::from("a.bin"));
    assert_eq!(p.compressed_stream_path, PathBuf::from("a.bin"));
    assert!(matches!(p.source, BitstreamSource::File(ref f) if f == &PathBuf::from("a.bin")));
    assert!(p.video_decoder_path.is_none());
    assert!(!p.keep_intermediate_files && !p.patch_color_subsampling);
    let d = Decoder::from_memory(vec![5]);
    assert!(matches!(d.params().source, BitstreamSource::Memory(ref v) if v == &vec![5]));
}

#[test]
fn publish_fails_once_the_consumer_is_gone() {
    let mut d = Decoder::from_memory(vec![]);
    let sink = d.start();
    let empty = Plane { width: 0, height: 0, samples: vec![] };
    let f = reconstruct_frame(&vec![], &empty, &empty, None).unwrap();
    assert!(sink.publish(f.clone()));
    assert!(d.recv_frame().is_some());
    assert!(sink.publish(f.clone()));
    drop(d);
    assert!(!sink.publish(f));
}

fn no_geometry(kind: UnitKind, info: AtlasInfo, body: &Vec<u8>) -> Option<VideoFrames> {
    if kind == UnitKind::Geometry {
        None
    } else {
        raw_video(kind, info, body)
    }
}

#[test]
fn failed_video_substream_skips_its_frames_only() {
    let l = vec![patch(2, 0, 0, 0)];
    let data = stream(vec![
        vps(2, 2, 0),
        atlas_unit(intra_frames(&[l.clone()])),
        video_unit(2, vec![1; 4]),
        video_unit(3, vec![1; 4]),
        vps(2, 2, 0),
        atlas_unit(intra_frames(&[l.clone()])),
        video_unit(2, vec![1; 4]),
        video_unit(3, vec![1; 4]),
    ]);
    let mut pass = Pass::new(&data);
    assert!(pass.next_frame(&no_geometry).is_none());
    assert_eq!(pass.error, None);
    let (frames, err) = all_frames(&data);
    assert_eq!(frames.len(), 2);
    assert_eq!(err, None);
}

#[test]
fn bad_patch_unit_skips_its_frames_and_the_pass_goes_on() {
    let data = stream(vec![
        vps(2, 2, 0),
        atlas_unit(vec![1, 9, 0]),
        video_unit(2, vec![1; 4]),
        video_unit(3, vec![1; 4]),
        vps(2, 2, 0),
        atlas_unit(intra_frames(&[vec![patch(2, 0, 0, 0)]])),
        video_unit(2, vec![1; 4]),
        video_unit(3, vec![1; 4]),
    ]);
    let (frames, err) = all_frames(&data);
    assert_eq!(err, None);
    assert_eq!(frames.len(), 1);
    assert_eq!(frames[0].positions.len(), 4);
}

#[test]
fn out_of_bounds_patch_skips_that_frame() {
    let l_bad = vec![patch(3, 0, 0, 0)];
    let l_ok = vec![patch(1, 0, 0, 0)];
    let data = stream(vec![
        vps(2, 2, 0),
        atlas_unit(intra_frames(&[l_bad, l_ok])),
        video_unit(2, vec![1; 8]),
        video_unit(3, vec![4; 8]),
    ]);
    let (frames, err) = all_frames(&data);
    assert_eq!(err, None);
    assert_eq!(frames.len(), 1);
    assert_eq!(frames[0].positions, vec![Point { x: 0, y: 0, z: 4 }]);
}

#[test]
fn units_before_any_parameter_set_are_ignored() {
    let data = stream(vec![
        atlas_unit(intra_frames(&[vec![patch(1, 0, 0, 0)]])),
        vps(1, 1, 0),
        atlas_unit(intra_frames(&[vec![patch(1, 0, 0, 0)]])),
        video_unit(2, vec![1]),
        video_unit(3, vec![2]),
    ]);
    let (frames, err) = all_frames(&data);
    assert_eq!(err, None);
    assert_eq!(frames.len(), 1);
    assert!(all_frames(&vec![0x60]).0.is_empty());
}

#[test]
fn store_frames_checks_plane_shapes() {
    let mut st = AtlasState::new(0, true);
    let good = Plane { width: 2, height: 1, samples: vec![1, 2] };
    let bad = Plane { width: 2, height: 2, samples: vec![1] };
    assert_eq!(st.store_frames(UnitKind::Occupancy, Some(VideoFrames::Samples(vec![good.clone()]))), Ok(()));
    assert_eq!(st.occupancy.len(), 1);
    assert_eq!(st.store_frames(UnitKind::Geometry, Some(VideoFrames::Samples(vec![bad]))), Err(UnitFault::Video));
    assert_eq!(st.geometry.len(), 0);
    assert_eq!(st.store_frames(UnitKind::Attribute, Some(VideoFrames::Samples(vec![good]))), Err(UnitFault::Video));
    assert_eq!(st.store_frames(UnitKind::Geometry, None), Err(UnitFault::Video));
    assert_eq!(st.ready_frames(), 0);
}

#[test]
fn bit_reader_signed_and_byte_slices() {
    let mut r = BitReader::new(vec![0b1110_0111, 0xaa, 0xbb, 0xcc]);
    assert_eq!(r.read_signed(4), Ok(-2));
    assert_eq!(r.read_signed(4), Ok(7));
    assert_eq!(r.read_bytes(2), Ok(vec![0xaa, 0xbb]));
    assert_eq!(r.read_bytes(2), Err(ReadError::OutOfData));
    assert_eq!(r.read_signed(8), Ok(-52));
    assert_eq!(r.read_signed(1), Err(ReadError::OutOfData));
}

#[test]
fn raw_output_cut_into_planes() {
    let raw: Vec<u8> = (0..12).collect();
    let ps = planes_from_raw(&raw, 2, 2, 6).unwrap();
    assert_eq!(ps.len(), 2);
    assert_eq!(ps[0].samples, vec![0, 1, 2, 3]);
    assert_eq!(ps[1].samples, vec![6, 7, 8, 9]);
    assert!(planes_from_raw(&raw, 2, 2, 5).is_none());
    assert!(planes_from_raw(&raw, 0, 2, 6).is_none());
    assert!(planes_from_raw(&raw, 4, 2, 6).is_none());
    let cs = color_planes_from_raw(&raw, 2, 2).unwrap();
    assert_eq!(cs.len(), 1);
    assert_eq!(cs[0].samples[1], Color { r: 1, g: 5, b: 9 });
    assert!(color_planes_from_raw(&raw, 1, 3).is_none());
}
