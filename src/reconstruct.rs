//! Rebuilds one frame's point cloud from its patch list and decoded planes.
use vstd::prelude::*;
use crate::geometry::{
    Color, ColorPlane, Patch, Plane, Point, PointSet3, color_of, frame_colors, frame_points,
    lemma_frame_lengths, occupied, patch_colors, patch_points, row_colors, row_points,
    sample_index, unproject,
};

verus! {

/// Why a frame could not be rebuilt. Such an error costs that frame only.
#[derive(Debug, Clone, Copy, PartialEq, Eq, Structural)]
pub enum FrameError {
    /// The occupancy, geometry and attribute planes differ in size.
    BufferMismatch,
    /// A patch has an unknown axis or reaches outside the planes.
    PatchOutOfBounds,
}

pub open spec fn planes_match(occ: Plane, geo: Plane, attr: Option<ColorPlane>) -> bool {
    &&& occ.width == geo.width
    &&& occ.height == geo.height
    &&& attr is Some ==> attr.unwrap().width == occ.width && attr.unwrap().height == occ.height
}

pub open spec fn all_fit(patches: Seq<Patch>, width: int, height: int) -> bool {
    forall|i: int| 0 <= i < patches.len() ==> (#[trigger] patches[i]).fits(width, height)
}

pub open spec fn opt_plane(attr: Option<&ColorPlane>) -> Option<ColorPlane> {
    match attr {
        Some(a) => Some(*a),
        None => None,
    }
}

proof fn lemma_index_bound(p: Patch, w: int, h: int, u: int, v: int)
    requires
        p.fits(w, h),
        0 <= u < p.size_u,
        0 <= v < p.size_v,
    ensures
        0 <= sample_index(p, w, u, v) < w * h,
{
    let row = p.v0 + v;
    let col = p.u0 + u;
    assert(row <= h - 1);
    assert(col < w);
    assert(0 <= row * w <= (h - 1) * w) by (nonlinear_arith)
        requires
            0 <= row <= h - 1,
            w > 0,
    ;
    assert((h - 1) * w == h * w - w) by (nonlinear_arith);
    assert(h * w == w * h) by (nonlinear_arith);
}

fn check_patch(p: &Patch, width: usize, height: usize) -> (r: bool)
    ensures
        r == p.fits(width as int, height as int),
{
    p.axis <= 2 && (p.u0 as usize) <= width && (p.size_u as usize) <= width - p.u0 as usize
        && (p.v0 as usize) <= height && (p.size_v as usize) <= height - p.v0 as usize
}

/// Appends the points (and colors) of row `v` of patch `p`.
fn emit_row(
    p: &Patch,
    occ: &Plane,
    geo: &Plane,
    attr: Option<&ColorPlane>,
    v: usize,
    positions: &mut Vec<Point>,
    colors: &mut Vec<Color>,
)
    requires
        occ.wf(),
        geo.wf(),
        attr is Some ==> attr.unwrap().wf(),
        planes_match(*occ, *geo, opt_plane(attr)),
        p.fits(occ.width as int, occ.height as int),
        v < p.size_v,
    ensures
        final(positions)@ == old(positions)@ + row_points(*p, *occ, *geo, v as int, p.size_u as nat),
        attr is Some ==> final(colors)@ == old(colors)@ + row_colors(
            *p,
            *occ,
            *attr.unwrap(),
            v as int,
            p.size_u as nat,
        ),
        attr is None ==> final(colors)@ == old(colors)@,
{
    let ghost pos0 = positions@;
    let ghost col0 = colors@;
    let w = occ.width;
    let mut u: usize = 0;
    while u < p.size_u as usize
        invariant
            occ.wf(),
            geo.wf(),
            attr is Some ==> attr.unwrap().wf(),
            planes_match(*occ, *geo, opt_plane(attr)),
            p.fits(occ.width as int, occ.height as int),
            v < p.size_v,
            w == occ.width,
            u <= p.size_u,
            positions@ == pos0 + row_points(*p, *occ, *geo, v as int, u as nat),
            attr is Some ==> colors@ == col0 + row_colors(
                *p,
                *occ,
                *attr.unwrap(),
                v as int,
                u as nat,
            ),
            attr is None ==> colors@ == col0,
        decreases p.size_u - u,
    {
        proof {
            lemma_index_bound(*p, w as int, occ.height as int, u as int, v as int);
        }
        let total = occ.samples.len();
        assert(total == w * occ.height);
        let idx = (p.v0 as usize + v) * w + p.u0 as usize + u;
        assert(idx == sample_index(*p, w as int, u as int, v as int));
        if occ.samples[idx] != 0 {
            let depth = p.d1 as u32 + geo.samples[idx] as u32;
            let du = if p.swap_uv { v } else { u };
            let dv = if p.swap_uv { u } else { v };
            let tangent = p.u1 as u32 + du as u32;
            let bitangent = p.v1 as u32 + dv as u32;
            let pt = if p.axis == 0 {
                Point { x: depth, y: bitangent, z: tangent }
            } else if p.axis == 1 {
                Point { x: bitangent, y: depth, z: tangent }
            } else {
                Point { x: tangent, y: bitangent, z: depth }
            };
            assert(pt == unproject(*p, *geo, u as int, v as int));
            positions.push(pt);
            match attr {
                Some(a) => {
                    let c = a.samples[idx];
                    assert(c == color_of(*p, *a, u as int, v as int));
                    colors.push(c);
                },
                None => {},
            }
        }
        proof {
            assert(occupied(*p, *occ, u as int, v as int) == (occ.samples@[idx as int] != 0));
        }
        u = u + 1;
        proof {
            assert(row_points(*p, *occ, *geo, v as int, u as nat) == {
                let prev = row_points(*p, *occ, *geo, v as int, (u - 1) as nat);
                if occupied(*p, *occ, u - 1, v as int) {
                    prev.push(unproject(*p, *geo, u - 1, v as int))
                } else {
                    prev
                }
            });
            if attr is Some {
                assert(row_colors(*p, *occ, *attr.unwrap(), v as int, u as nat) == {
                    let prev = row_colors(*p, *occ, *attr.unwrap(), v as int, (u - 1) as nat);
                    if occupied(*p, *occ, u - 1, v as int) {
                        prev.push(color_of(*p, *attr.unwrap(), u - 1, v as int))
                    } else {
                        prev
                    }
                });
            }
        }
    }
}

/// Appends the points (and colors) of a whole patch, row after row.
fn emit_patch(
    p: &Patch,
    occ: &Plane,
    geo: &Plane,
    attr: Option<&ColorPlane>,
    positions: &mut Vec<Point>,
    colors: &mut Vec<Color>,
)
    requires
        occ.wf(),
        geo.wf(),
        attr is Some ==> attr.unwrap().wf(),
        planes_match(*occ, *geo, opt_plane(attr)),
        p.fits(occ.width as int, occ.height as int),
    ensures
        final(positions)@ == old(positions)@ + patch_points(*p, *occ, *geo, p.size_v as nat),
        attr is Some ==> final(colors)@ == old(colors)@ + patch_colors(
            *p,
            *occ,
            *attr.unwrap(),
            p.size_v as nat,
        ),
        attr is None ==> final(colors)@ == old(colors)@,
{
    let ghost pos0 = positions@;
    let ghost col0 = colors@;
    let mut v: usize = 0;
    while v < p.size_v as usize
        invariant
            occ.wf(),
            geo.wf(),
            attr is Some ==> attr.unwrap().wf(),
            planes_match(*occ, *geo, opt_plane(attr)),
            p.fits(occ.width as int, occ.height as int),
            v <= p.size_v,
            positions@ == pos0 + patch_points(*p, *occ, *geo, v as nat),
            attr is Some ==> colors@ == col0 + patch_colors(*p, *occ, *attr.unwrap(), v as nat),
            attr is None ==> colors@ == col0,
        decreases p.size_v - v,
    {
        emit_row(p, occ, geo, attr, v, positions, colors);
        proof {
            assert(pos0 + patch_points(*p, *occ, *geo, (v + 1) as nat) =~= pos0 + patch_points(
                *p,
                *occ,
                *geo,
                v as nat,
            ) + row_points(*p, *occ, *geo, v as int, p.size_u as nat));
            if attr is Some {
                assert(col0 + patch_colors(*p, *occ, *attr.unwrap(), (v + 1) as nat) =~= col0
                    + patch_colors(*p, *occ, *attr.unwrap(), v as nat) + row_colors(
                    *p,
                    *occ,
                    *attr.unwrap(),
                    v as int,
                    p.size_u as nat,
                ));
            }
        }
        v = v + 1;
    }
}

/// Rebuilds a frame: every patch in list order, every occupied sample of a patch
/// row by row, each unprojected with the depth that the geometry plane holds there.
pub fn reconstruct_frame(
    patches: &Vec<Patch>,
    occ: &Plane,
    geo: &Plane,
    attr: Option<&ColorPlane>,
) -> (r: Result<PointSet3, FrameError>)
    requires
        occ.wf(),
        geo.wf(),
        attr is Some ==> attr.unwrap().wf(),
    ensures
        !planes_match(*occ, *geo, opt_plane(attr)) ==> r == Err::<PointSet3, FrameError>(
            FrameError::BufferMismatch,
        ),
        planes_match(*occ, *geo, opt_plane(attr)) && !all_fit(
            patches@,
            occ.width as int,
            occ.height as int,
        ) ==> r == Err::<PointSet3, FrameError>(FrameError::PatchOutOfBounds),
        planes_match(*occ, *geo, opt_plane(attr)) && all_fit(
            patches@,
            occ.width as int,
            occ.height as int,
        ) ==> r is Ok,
        r matches Ok(pc) ==> {
            &&& pc.wf()
            &&& pc.with_colors == attr is Some
            &&& pc.positions@ == frame_points(patches@, *occ, *geo, patches@.len())
            &&& attr is Some ==> pc.colors@ == frame_colors(
                patches@,
                *occ,
                *attr.unwrap(),
                patches@.len(),
            )
        },
{
    let same = occ.width == geo.width && occ.height == geo.height && match attr {
        Some(a) => a.width == occ.width && a.height == occ.height,
        None => true,
    };
    if !same {
        return Err(FrameError::BufferMismatch);
    }
    assert(planes_match(*occ, *geo, opt_plane(attr)));
    let mut i: usize = 0;
    while i < patches.len()
        invariant
            i <= patches@.len(),
            planes_match(*occ, *geo, opt_plane(attr)),
            forall|j: int| 0 <= j < i ==> (#[trigger] patches@[j]).fits(
                occ.width as int,
                occ.height as int,
            ),
        decreases patches@.len() - i,
    {
        if !check_patch(&patches[i], occ.width, occ.height) {
            return Err(FrameError::PatchOutOfBounds);
        }
        i = i + 1;
    }
    let mut positions: Vec<Point> = Vec::new();
    let mut colors: Vec<Color> = Vec::new();
    let mut k: usize = 0;
    while k < patches.len()
        invariant
            occ.wf(),
            geo.wf(),
            attr is Some ==> attr.unwrap().wf(),
            planes_match(*occ, *geo, opt_plane(attr)),
            all_fit(patches@, occ.width as int, occ.height as int),
            k <= patches@.len(),
            positions@ == frame_points(patches@, *occ, *geo, k as nat),
            attr is Some ==> colors@ == frame_colors(patches@, *occ, *attr.unwrap(), k as nat),
            attr is None ==> colors@.len() == 0,
        decreases patches@.len() - k,
    {
        emit_patch(&patches[k], occ, geo, attr, &mut positions, &mut colors);
        k = k + 1;
    }
    proof {
        if attr is Some {
            lemma_frame_lengths(patches@, *occ, *geo, *attr.unwrap(), patches@.len());
        }
    }
    Ok(PointSet3 { positions, colors, with_colors: attr.is_some() })
}

/// Rebuilding a frame is a function of its patch list and planes alone: two
/// rebuilds of the same inputs hold the same points and colors in the same order.
pub proof fn lemma_reconstruction_deterministic(
    patches: Seq<Patch>,
    occ: Plane,
    geo: Plane,
    attr: Option<ColorPlane>,
    a: PointSet3,
    b: PointSet3,
)
    requires
        a.positions@ == frame_points(patches, occ, geo, patches.len()),
        b.positions@ == frame_points(patches, occ, geo, patches.len()),
        attr is Some ==> a.colors@ == frame_colors(patches, occ, attr.unwrap(), patches.len()),
        attr is Some ==> b.colors@ == frame_colors(patches, occ, attr.unwrap(), patches.len()),
        a.wf(),
        b.wf(),
        a.with_colors == attr is Some,
        b.with_colors == attr is Some,
    ensures
        a.positions@ == b.positions@,
        a.colors@ == b.colors@,
{
    if attr is None {
        assert(a.colors@ =~= b.colors@);
    }
}

/// Every rebuilt frame has one color per point when attributes are coded, and no
/// colors otherwise.
pub proof fn lemma_colors_parallel(
    patches: Seq<Patch>,
    occ: Plane,
    geo: Plane,
    attr: Option<ColorPlane>,
)
    ensures
        attr is Some ==> frame_colors(patches, occ, attr.unwrap(), patches.len()).len()
            == frame_points(patches, occ, geo, patches.len()).len(),
{
    if attr is Some {
        lemma_frame_lengths(patches, occ, geo, attr.unwrap(), patches.len());
    }
}

} // verus!
