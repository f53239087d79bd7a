//! Patches, decoded sample planes and the point clouds built from them.
use vstd::prelude::*;

verus! {

/// A rectangle of video samples and how to place it in 3D space.
///
/// `axis` is the projection (normal) axis: 0 for x, 1 for y, 2 for z.
/// When `swap_uv` is set the patch is rotated, so its 2D columns run along
/// the bitangent axis and its rows along the tangent axis.
#[derive(Debug, Clone, Copy, PartialEq, Eq, Structural)]
pub struct Patch {
    pub axis: u8,
    pub swap_uv: bool,
    pub u0: u16,
    pub v0: u16,
    pub size_u: u16,
    pub size_v: u16,
    pub u1: u16,
    pub v1: u16,
    pub d1: u16,
}

/// One decoded plane of samples (occupancy or geometry), stored row by row.
#[derive(Debug, Clone)]
pub struct Plane {
    pub width: usize,
    pub height: usize,
    pub samples: Vec<u16>,
}

#[derive(Debug, Clone, Copy, PartialEq, Eq, Structural)]
pub struct Color {
    pub r: u8,
    pub g: u8,
    pub b: u8,
}

/// One decoded attribute plane, stored row by row.
#[derive(Debug, Clone)]
pub struct ColorPlane {
    pub width: usize,
    pub height: usize,
    pub samples: Vec<Color>,
}

#[derive(Debug, Clone, Copy, PartialEq, Eq, Structural)]
pub struct Point {
    pub x: u32,
    pub y: u32,
    pub z: u32,
}

/// A reconstructed frame: positions and, when attributes are coded, one color per position.
#[derive(Debug, Clone)]
pub struct PointSet3 {
    pub positions: Vec<Point>,
    pub colors: Vec<Color>,
    pub with_colors: bool,
}

impl Plane {
    pub open spec fn wf(&self) -> bool {
        self.samples@.len() == self.width * self.height
    }
}

impl ColorPlane {
    pub open spec fn wf(&self) -> bool {
        self.samples@.len() == self.width * self.height
    }
}

impl PointSet3 {
    /// Colors run parallel to positions when present, and are empty otherwise.
    pub open spec fn wf(&self) -> bool {
        if self.with_colors {
            self.colors@.len() == self.positions@.len()
        } else {
            self.colors@.len() == 0
        }
    }

    pub fn is_wf(&self) -> (r: bool)
        ensures
            r == self.wf(),
    {
        if self.with_colors {
            self.colors.len() == self.positions.len()
        } else {
            self.colors.len() == 0
        }
    }
}

impl Patch {
    pub open spec fn fits(&self, width: int, height: int) -> bool {
        &&& self.axis <= 2
        &&& self.u0 + self.size_u <= width
        &&& self.v0 + self.size_v <= height
    }
}

/// Where the sample at column `u`, row `v` of a patch lies in a plane of the given width.
pub open spec fn sample_index(p: Patch, width: int, u: int, v: int) -> int {
    (p.v0 + v) * width + p.u0 + u
}

pub open spec fn occupied(p: Patch, occ: Plane, u: int, v: int) -> bool {
    occ.samples@[sample_index(p, occ.width as int, u, v)] != 0
}

/// The 3D point of the sample at column `u`, row `v` of a patch.
pub open spec fn unproject(p: Patch, geo: Plane, u: int, v: int) -> Point {
    let depth = (p.d1 + geo.samples@[sample_index(p, geo.width as int, u, v)]) as u32;
    let tangent = (p.u1 + if p.swap_uv { v } else { u }) as u32;
    let bitangent = (p.v1 + if p.swap_uv { u } else { v }) as u32;
    if p.axis == 0 {
        Point { x: depth, y: bitangent, z: tangent }
    } else if p.axis == 1 {
        Point { x: bitangent, y: depth, z: tangent }
    } else {
        Point { x: tangent, y: bitangent, z: depth }
    }
}

pub open spec fn color_of(p: Patch, attr: ColorPlane, u: int, v: int) -> Color {
    attr.samples@[sample_index(p, attr.width as int, u, v)]
}

/// Points of the first `n` samples of row `v` of a patch.
pub open spec fn row_points(p: Patch, occ: Plane, geo: Plane, v: int, n: nat) -> Seq<Point>
    decreases n,
{
    if n == 0 {
        seq![]
    } else {
        let prev = row_points(p, occ, geo, v, (n - 1) as nat);
        if occupied(p, occ, n - 1, v) {
            prev.push(unproject(p, geo, n - 1, v))
        } else {
            prev
        }
    }
}

/// Colors of the first `n` samples of row `v` of a patch.
pub open spec fn row_colors(p: Patch, occ: Plane, attr: ColorPlane, v: int, n: nat) -> Seq<Color>
    decreases n,
{
    if n == 0 {
        seq![]
    } else {
        let prev = row_colors(p, occ, attr, v, (n - 1) as nat);
        if occupied(p, occ, n - 1, v) {
            prev.push(color_of(p, attr, n - 1, v))
        } else {
            prev
        }
    }
}

/// Points of the first `m` rows of a patch.
pub open spec fn patch_points(p: Patch, occ: Plane, geo: Plane, m: nat) -> Seq<Point>
    decreases m,
{
    if m == 0 {
        seq![]
    } else {
        patch_points(p, occ, geo, (m - 1) as nat) + row_points(p, occ, geo, m - 1, p.size_u as nat)
    }
}

pub open spec fn patch_colors(p: Patch, occ: Plane, attr: ColorPlane, m: nat) -> Seq<Color>
    decreases m,
{
    if m == 0 {
        seq![]
    } else {
        patch_colors(p, occ, attr, (m - 1) as nat) + row_colors(
            p,
            occ,
            attr,
            m - 1,
            p.size_u as nat,
        )
    }
}

/// Points of the first `n` patches, each patch in full.
pub open spec fn frame_points(patches: Seq<Patch>, occ: Plane, geo: Plane, n: nat) -> Seq<Point>
    decreases n,
{
    if n == 0 {
        seq![]
    } else {
        let p = patches[n - 1];
        frame_points(patches, occ, geo, (n - 1) as nat) + patch_points(p, occ, geo, p.size_v as nat)
    }
}

pub open spec fn frame_colors(
    patches: Seq<Patch>,
    occ: Plane,
    attr: ColorPlane,
    n: nat,
) -> Seq<Color>
    decreases n,
{
    if n == 0 {
        seq![]
    } else {
        let p = patches[n - 1];
        frame_colors(patches, occ, attr, (n - 1) as nat) + patch_colors(
            p,
            occ,
            attr,
            p.size_v as nat,
        )
    }
}

pub proof fn lemma_row_lengths(p: Patch, occ: Plane, geo: Plane, attr: ColorPlane, v: int, n: nat)
    ensures
        row_points(p, occ, geo, v, n).len() == row_colors(p, occ, attr, v, n).len(),
    decreases n,
{
    if n > 0 {
        lemma_row_lengths(p, occ, geo, attr, v, (n - 1) as nat);
    }
}

pub proof fn lemma_patch_lengths(p: Patch, occ: Plane, geo: Plane, attr: ColorPlane, m: nat)
    ensures
        patch_points(p, occ, geo, m).len() == patch_colors(p, occ, attr, m).len(),
    decreases m,
{
    if m > 0 {
        lemma_patch_lengths(p, occ, geo, attr, (m - 1) as nat);
        lemma_row_lengths(p, occ, geo, attr, m - 1, p.size_u as nat);
    }
}

/// Whatever the patches and planes, a frame has exactly one color per point.
pub proof fn lemma_frame_lengths(
    patches: Seq<Patch>,
    occ: Plane,
    geo: Plane,
    attr: ColorPlane,
    n: nat,
)
    ensures
        frame_points(patches, occ, geo, n).len() == frame_colors(patches, occ, attr, n).len(),
    decreases n,
{
    if n > 0 {
        let p = patches[n - 1];
        lemma_frame_lengths(patches, occ, geo, attr, (n - 1) as nat);
        lemma_patch_lengths(p, occ, geo, attr, p.size_v as nat);
    }
}

} // verus!
