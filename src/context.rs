//! State shared by the unit decoders during one pass over a group of units.
use vstd::prelude::*;
use crate::geometry::{Color, ColorPlane, Patch, Plane, PointSet3, frame_colors, frame_points};
use crate::patches::{AtlasError, atlas_lists, decode_atlas_data, list_views};
use crate::reconstruct::{FrameError, all_fit, opt_plane, planes_match, reconstruct_frame};
use crate::units::{
    AtlasInfo, ParameterSet, body_of, header_of, parameter_set_of, UnitError, UnitKind, decode_parameter_set, parse_header, unit_body,
};

verus! {

/// What the video decoder hands back for one sub-stream: one plane per coded frame.
pub enum VideoFrames {
    Samples(Vec<Plane>),
    Colors(Vec<ColorPlane>),
}

/// Everything decoded so far for one atlas, indexed by frame.
pub struct AtlasState {
    pub atlas_id: u8,
    pub has_attribute: bool,
    pub lists: Vec<Vec<Patch>>,
    pub occupancy: Vec<Plane>,
    pub geometry: Vec<Plane>,
    pub attribute: Vec<ColorPlane>,
}

/// Why a unit was not taken in. Only `Fatal` ends the pass.
#[derive(Debug, Clone, Copy, PartialEq, Eq, Structural)]
pub enum UnitFault {
    Fatal(UnitError),
    /// A unit refers to a parameter set that is not the active one, or comes before any.
    NoParameterSet,
    /// A unit names an atlas that the active parameter set does not declare.
    UnknownAtlas,
    Patches(AtlasError),
    /// The video decoder failed, or its planes have the wrong size.
    Video,
}

pub struct Context {
    pub active: Option<ParameterSet>,
    pub atlases: Vec<AtlasState>,
}

pub open spec fn min(a: int, b: int) -> int {
    if a <= b {
        a
    } else {
        b
    }
}

impl AtlasState {
    pub open spec fn wf(&self) -> bool {
        &&& forall|i: int| 0 <= i < self.occupancy@.len() ==> (#[trigger] self.occupancy@[i]).wf()
        &&& forall|i: int| 0 <= i < self.geometry@.len() ==> (#[trigger] self.geometry@[i]).wf()
        &&& forall|i: int| 0 <= i < self.attribute@.len() ==> (#[trigger] self.attribute@[i]).wf()
    }

    /// How many leading frames have every buffer they need.
    pub open spec fn ready(&self) -> int {
        let base = min(
            self.lists@.len() as int,
            min(self.occupancy@.len() as int, self.geometry@.len() as int),
        );
        if self.has_attribute {
            min(base, self.attribute@.len() as int)
        } else {
            base
        }
    }

    pub open spec fn attr_at(&self, i: int) -> Option<ColorPlane> {
        if self.has_attribute {
            Some(self.attribute@[i])
        } else {
            None
        }
    }

    /// Whether frame `i` can be rebuilt from its buffers.
    pub open spec fn frame_ok(&self, i: int) -> bool {
        let occ = self.occupancy@[i];
        &&& planes_match(occ, self.geometry@[i], self.attr_at(i))
        &&& all_fit(self.lists@[i]@, occ.width as int, occ.height as int)
    }

    /// The frame `i` rebuilds to.
    pub open spec fn frame_is(&self, i: int, pc: PointSet3) -> bool {
        let occ = self.occupancy@[i];
        let ps = self.lists@[i]@;
        &&& pc.wf()
        &&& pc.with_colors == self.has_attribute
        &&& pc.positions@ == frame_points(ps, occ, self.geometry@[i], ps.len())
        &&& self.has_attribute ==> pc.colors@ == frame_colors(
            ps,
            occ,
            self.attribute@[i],
            ps.len(),
        )
    }

    pub fn new(atlas_id: u8, has_attribute: bool) -> (r: AtlasState)
        ensures
            r.wf(),
            r.atlas_id == atlas_id,
            r.has_attribute == has_attribute,
            r.lists@.len() == 0,
            r.occupancy@.len() == 0,
            r.geometry@.len() == 0,
            r.attribute@.len() == 0,
    {
        AtlasState {
            atlas_id,
            has_attribute,
            lists: Vec::new(),
            occupancy: Vec::new(),
            geometry: Vec::new(),
            attribute: Vec::new(),
        }
    }

    pub fn ready_frames(&self) -> (r: usize)
        ensures
            r == self.ready(),
    {
        let mut n = self.lists.len();
        if self.occupancy.len() < n {
            n = self.occupancy.len();
        }
        if self.geometry.len() < n {
            n = self.geometry.len();
        }
        if self.has_attribute && self.attribute.len() < n {
            n = self.attribute.len();
        }
        n
    }

    /// Rebuilds frame `i`.
    pub fn frame(&self, i: usize) -> (r: Result<PointSet3, FrameError>)
        requires
            self.wf(),
            i < self.ready(),
        ensures
            r is Ok <==> self.frame_ok(i as int),
            r matches Ok(pc) ==> self.frame_is(i as int, pc),
    {
        let attr: Option<&ColorPlane> = if self.has_attribute {
            Some(&self.attribute[i])
        } else {
            None
        };
        assert(opt_plane(attr) == self.attr_at(i as int));
        reconstruct_frame(&self.lists[i], &self.occupancy[i], &self.geometry[i], attr)
    }

    /// Stores what the video decoder returned for a sub-stream of this atlas. Planes
    /// of the wrong shape, or none at all, leave the state as it was.
    pub fn store_frames(&mut self, kind: UnitKind, frames: Option<VideoFrames>) -> (r: Result<
        (),
        UnitFault,
    >)
        requires
            old(self).wf(),
            kind != UnitKind::ParameterSet,
            kind != UnitKind::AtlasData,
        ensures
            final(self).wf(),
            final(self).atlas_id == old(self).atlas_id,
            final(self).has_attribute == old(self).has_attribute,
            final(self).lists@ == old(self).lists@,
            stored(planes_of(*old(self)), planes_of(*final(self)), kind, frames, r),
    {
        if kind == UnitKind::Attribute {
            match frames {
                Some(VideoFrames::Colors(mut planes)) => {
                    if check_color_planes(&planes) {
                        self.attribute.append(&mut planes);
                        Ok(())
                    } else {
                        Err(UnitFault::Video)
                    }
                },
                _ => Err(UnitFault::Video),
            }
        } else {
            match frames {
                Some(VideoFrames::Samples(mut planes)) => {
                    if check_planes(&planes) {
                        if kind == UnitKind::Occupancy {
                            self.occupancy.append(&mut planes);
                        } else {
                            self.geometry.append(&mut planes);
                        }
                        Ok(())
                    } else {
                        Err(UnitFault::Video)
                    }
                },
                _ => Err(UnitFault::Video),
            }
        }
    }
}

/// The occupancy, geometry and attribute planes of an atlas.
pub type Planes = (Seq<Plane>, Seq<Plane>, Seq<ColorPlane>);

pub open spec fn planes_of(st: AtlasState) -> Planes {
    (st.occupancy@, st.geometry@, st.attribute@)
}

/// How the planes of an atlas change when a video unit of `kind` decoded to `f`:
/// well-shaped planes of the right sort are appended to their sequence, anything
/// else is a video fault that changes nothing.
pub open spec fn stored(
    before: Planes,
    after: Planes,
    kind: UnitKind,
    f: Option<VideoFrames>,
    r: Result<(), UnitFault>,
) -> bool {
    if kind == UnitKind::Attribute {
        match f {
            Some(VideoFrames::Colors(p)) if color_planes_all_wf(p@) => r is Ok && after == (
                before.0,
                before.1,
                before.2 + p@,
            ),
            _ => r == Err::<(), UnitFault>(UnitFault::Video) && after == before,
        }
    } else {
        match f {
            Some(VideoFrames::Samples(p)) if planes_all_wf(p@) => r is Ok && after == if kind
                == UnitKind::Occupancy {
                (before.0 + p@, before.1, before.2)
            } else {
                (before.0, before.1 + p@, before.2)
            },
            _ => r == Err::<(), UnitFault>(UnitFault::Video) && after == before,
        }
    }
}

pub open spec fn planes_all_wf(v: Seq<Plane>) -> bool {
    forall|i: int| 0 <= i < v.len() ==> (#[trigger] v[i]).wf()
}

pub open spec fn color_planes_all_wf(v: Seq<ColorPlane>) -> bool {
    forall|i: int| 0 <= i < v.len() ==> (#[trigger] v[i]).wf()
}

fn check_planes(v: &Vec<Plane>) -> (r: bool)
    ensures
        r == planes_all_wf(v@),
{
    let mut i: usize = 0;
    while i < v.len()
        invariant
            i <= v@.len(),
            forall|j: int| 0 <= j < i ==> (#[trigger] v@[j]).wf(),
        decreases v@.len() - i,
    {
        let p = &v[i];
        let len = p.samples.len();
        match p.width.checked_mul(p.height) {
            Some(n) => {
                if n != len {
                    return false;
                }
            },
            None => {
                return false;
            },
        }
        i = i + 1;
    }
    true
}

fn check_color_planes(v: &Vec<ColorPlane>) -> (r: bool)
    ensures
        r == color_planes_all_wf(v@),
{
    let mut i: usize = 0;
    while i < v.len()
        invariant
            i <= v@.len(),
            forall|j: int| 0 <= j < i ==> (#[trigger] v@[j]).wf(),
        decreases v@.len() - i,
    {
        let p = &v[i];
        let len = p.samples.len();
        match p.width.checked_mul(p.height) {
            Some(n) => {
                if n != len {
                    return false;
                }
            },
            None => {
                return false;
            },
        }
        i = i + 1;
    }
    true
}

impl Context {
    pub open spec fn wf(&self) -> bool {
        &&& forall|i: int| 0 <= i < self.atlases@.len() ==> (#[trigger] self.atlases@[i]).wf()
        &&& forall|i: int, j: int|
            0 <= i < j < self.atlases@.len() ==> (#[trigger] self.atlases@[i]).atlas_id
                != (#[trigger] self.atlases@[j]).atlas_id
    }

    pub open spec fn has_atlas(&self, id: u8) -> bool {
        exists|i: int| 0 <= i < self.atlases@.len() && (#[trigger] self.atlases@[i]).atlas_id == id
    }

    /// Where the state of atlas `id` stands, when there is one.
    pub open spec fn index_of(&self, id: u8) -> int {
        choose|i: int| 0 <= i < self.atlases@.len() && (#[trigger] self.atlases@[i]).atlas_id == id
    }

    /// The resolved patch lists of atlas `id` so far.
    pub open spec fn lists_of(&self, id: u8) -> Seq<Seq<Patch>> {
        if self.has_atlas(id) {
            list_views(self.atlases@[self.index_of(id)].lists@)
        } else {
            seq![]
        }
    }

    /// The list that a leading delta of atlas `id` is resolved against.
    pub open spec fn last_list_of(&self, id: u8) -> Option<Seq<Patch>> {
        if self.lists_of(id).len() == 0 {
            None
        } else {
            Some(self.lists_of(id).last())
        }
    }

    /// The planes of atlas `id` so far.
    pub open spec fn planes_of_atlas(&self, id: u8) -> Planes {
        if self.has_atlas(id) {
            planes_of(self.atlases@[self.index_of(id)])
        } else {
            (seq![], seq![], seq![])
        }
    }

    /// What the active parameter set declares of atlas `id`.
    pub open spec fn info_of(&self, id: u8) -> AtlasInfo {
        self.active.unwrap().atlases@[id as int]
    }

    pub open spec fn declares(&self, id: u8) -> bool {
        self.active matches Some(ps) && (id as int) < ps.atlases@.len()
    }

    pub fn new() -> (r: Context)
        ensures
            r.wf(),
            r.active is None,
            r.atlases@.len() == 0,
    {
        Context { active: None, atlases: Vec::new() }
    }

    /// Makes `ps` the active parameter set, replacing any other.
    pub fn activate(&mut self, ps: ParameterSet)
        ensures
            final(self).active == Some(ps),
            final(self).atlases@ == old(self).atlases@,
    {
        self.active = Some(ps);
    }

    /// The index of the state of atlas `id`, created empty on first use.
    pub fn atlas_index(&mut self, id: u8, has_attribute: bool) -> (r: usize)
        requires
            old(self).wf(),
        ensures
            final(self).wf(),
            final(self).active == old(self).active,
            r < final(self).atlases@.len(),
            final(self).atlases@[r as int].atlas_id == id,
            old(self).has_atlas(id) ==> final(self).atlases@ == old(self).atlases@ && r
                == old(self).index_of(id),
            !old(self).has_atlas(id) ==> final(self).atlases@.len() == old(self).atlases@.len() + 1
                && final(self).atlases@.drop_last() == old(self).atlases@
                && final(self).atlases@.last().has_attribute == has_attribute
                && final(self).atlases@.last().lists@.len() == 0
                && final(self).atlases@.last().occupancy@.len() == 0
                && final(self).atlases@.last().geometry@.len() == 0
                && final(self).atlases@.last().attribute@.len() == 0,
    {
        let mut i: usize = 0;
        while i < self.atlases.len()
            invariant
                i <= self.atlases@.len(),
                self.wf(),
                self.atlases@ == old(self).atlases@,
                self.active == old(self).active,
                forall|j: int| 0 <= j < i ==> (#[trigger] self.atlases@[j]).atlas_id != id,
            decreases self.atlases@.len() - i,
        {
            if self.atlases[i].atlas_id == id {
                proof {
                    let j = self.index_of(id);
                    assert(self.atlases@[i as int].atlas_id == id);
                    if j != i {
                        if j < i {
                            assert(self.atlases@[j].atlas_id != self.atlases@[i as int].atlas_id);
                        } else {
                            assert(self.atlases@[i as int].atlas_id != self.atlases@[j].atlas_id);
                        }
                    }
                }
                return i;
            }
            i = i + 1;
        }
        self.atlases.push(AtlasState::new(id, has_attribute));
        assert(self.atlases@.drop_last() =~= old(self).atlases@);
        self.atlases.len() - 1
    }
}

/// Errors of a unit whose header was read: the kinds that end the pass.
pub open spec fn fatal(r: Result<(), UnitFault>) -> bool {
    r matches Err(UnitFault::Fatal(_))
}

/// The last of a sequence of lists, when there is one.
pub open spec fn last_of(ls: Seq<Seq<Patch>>) -> Option<Seq<Patch>> {
    if ls.len() == 0 {
        None
    } else {
        Some(ls.last())
    }
}

/// Takes the body of an atlas-data or video unit into the state of its atlas.
fn decode_into<F>(
    st: &mut AtlasState,
    kind: UnitKind,
    info: AtlasInfo,
    body: &Vec<u8>,
    video: &F,
) -> (r: Result<(), UnitFault>)
    where
        F: Fn(UnitKind, AtlasInfo, &Vec<u8>) -> Option<VideoFrames>,
    requires
        old(st).wf(),
        kind != UnitKind::ParameterSet,
        body@.len() * 8 <= usize::MAX,
        forall|k: UnitKind, i: AtlasInfo, b: &Vec<u8>| video.requires((k, i, b)),
    ensures
        final(st).wf(),
        final(st).atlas_id == old(st).atlas_id,
        final(st).has_attribute == old(st).has_attribute,
        !fatal(r),
        kind == UnitKind::AtlasData ==> match atlas_lists(body@, last_of(list_views(old(st).lists@))) {
            Ok(ls) => r is Ok && list_views(final(st).lists@) == list_views(old(st).lists@) + ls,
            Err(e) => r == Err::<(), UnitFault>(UnitFault::Patches(e)) && final(st).lists@ == old(
                st,
            ).lists@,
        },
        kind != UnitKind::AtlasData ==> final(st).lists@ == old(st).lists@ && exists|
            f: Option<VideoFrames>,
        |
            video.ensures((kind, info, body), f) && stored(
                planes_of(*old(st)),
                planes_of(*final(st)),
                kind,
                f,
                r,
            ),
        kind == UnitKind::AtlasData ==> planes_of(*final(st)) == planes_of(*old(st)),
{
    let ghost lv = list_views(st.lists@);
    proof {
        if st.lists@.len() > 0 {
            assert(lv.last() == st.lists@.last()@);
        }
    }
    match kind {
        UnitKind::AtlasData => {
            let n = st.lists.len();
            let decoded = if n == 0 {
                decode_atlas_data(body, None)
            } else {
                decode_atlas_data(body, Some(&st.lists[n - 1]))
            };
            match decoded {
                Ok(mut ls) => {
                    let ghost before = st.lists@;
                    let ghost added = ls@;
                    st.lists.append(&mut ls);
                    assert(list_views(st.lists@) =~= list_views(before) + list_views(added));
                    Ok(())
                },
                Err(e) => Err(UnitFault::Patches(e)),
            }
        },
        _ => {
            let frames = video(kind, info, body);
            let ghost f = frames;
            let ghost before = *st;
            let r = st.store_frames(kind, frames);
            assert(video.ensures((kind, info, body), f) && stored(
                planes_of(before),
                planes_of(*st),
                kind,
                f,
                r,
            ));
            r
        },
    }
}

impl Context {
    /// Takes the body of an atlas-data or video unit into the state of atlas `id`,
    /// creating that state on first use.
    #[verifier::rlimit(40)]
    fn take_into_atlas<F>(
        &mut self,
        kind: UnitKind,
        id: u8,
        info: AtlasInfo,
        body: &Vec<u8>,
        video: &F,
    ) -> (r: Result<(), UnitFault>)
        where
            F: Fn(UnitKind, AtlasInfo, &Vec<u8>) -> Option<VideoFrames>,
        requires
            old(self).wf(),
            kind != UnitKind::ParameterSet,
            body@.len() * 8 <= usize::MAX,
            forall|k: UnitKind, i: AtlasInfo, b: &Vec<u8>| video.requires((k, i, b)),
        ensures
            final(self).wf(),
            final(self).active == old(self).active,
            !fatal(r),
            r is Ok ==> final(self).has_atlas(id),
            kind == UnitKind::AtlasData ==> match atlas_lists(body@, old(self).last_list_of(id)) {
                Ok(ls) => r is Ok && final(self).lists_of(id) == old(self).lists_of(id) + ls,
                Err(e) => r == Err::<(), UnitFault>(UnitFault::Patches(e)) && final(self).lists_of(
                    id,
                ) == old(self).lists_of(id),
            },
            kind != UnitKind::AtlasData ==> final(self).lists_of(id) == old(self).lists_of(id),
            kind != UnitKind::AtlasData ==> exists|f: Option<VideoFrames>|
                video.ensures((kind, info, body), f) && stored(
                    old(self).planes_of_atlas(id),
                    final(self).planes_of_atlas(id),
                    kind,
                    f,
                    r,
                ),
            kind == UnitKind::AtlasData ==> final(self).planes_of_atlas(id) == old(
                self,
            ).planes_of_atlas(id),
    {
        let idx = self.atlas_index(id, info.has_attribute);
        let ghost mid = *self;
        let mut st = self.atlases.remove(idx);
        proof {
            assert(st.wf());
            assert(st == mid.atlases@[idx as int]);
        }
        let ghost st0 = st;
        let res = decode_into(&mut st, kind, info, body, video);
        proof {
            assert(st.atlas_id == id);
            assert(st.wf());
        }
        self.atlases.insert(idx, st);
        proof {
            assert(self.atlases@ =~= mid.atlases@.update(idx as int, st));
            assert(self.atlases@[idx as int].atlas_id == id);
            assert(self.has_atlas(id));
            let j = self.index_of(id);
            if j != idx {
                if j < idx {
                    assert(self.atlases@[j].atlas_id != self.atlases@[idx as int].atlas_id);
                } else {
                    assert(self.atlases@[idx as int].atlas_id != self.atlases@[j].atlas_id);
                }
            }
            assert(mid.has_atlas(id));
            let k = mid.index_of(id);
            if k != idx {
                if k < idx {
                    assert(mid.atlases@[k].atlas_id != mid.atlases@[idx as int].atlas_id);
                } else {
                    assert(mid.atlases@[idx as int].atlas_id != mid.atlases@[k].atlas_id);
                }
            }
            if old(self).has_atlas(id) {
                assert(mid.atlases@ == old(self).atlases@);
            } else {
                if (idx as int) < mid.atlases@.len() - 1 {
                    assert(mid.atlases@.drop_last()[idx as int] == mid.atlases@[idx as int]);
                    assert(old(self).atlases@[idx as int].atlas_id == id);
                }
                assert(mid.atlases@[idx as int].lists@.len() == 0);
                assert(list_views(mid.atlases@[idx as int].lists@) =~= Seq::<Seq<Patch>>::empty());
                assert(planes_of(mid.atlases@[idx as int]) =~= (
                    Seq::<Plane>::empty(),
                    Seq::<Plane>::empty(),
                    Seq::<ColorPlane>::empty(),
                ));
            }
            assert(mid.lists_of(id) == old(self).lists_of(id));
            assert(mid.planes_of_atlas(id) == old(self).planes_of_atlas(id));
            assert(planes_of(st0) == old(self).planes_of_atlas(id));
            assert(self.planes_of_atlas(id) == planes_of(st));
            if kind != UnitKind::AtlasData {
                let f = choose|f: Option<VideoFrames>|
                    video.ensures((kind, info, body), f) && stored(
                        planes_of(st0),
                        planes_of(st),
                        kind,
                        f,
                        res,
                    );
                assert(video.ensures((kind, info, body), f) && stored(
                    old(self).planes_of_atlas(id),
                    self.planes_of_atlas(id),
                    kind,
                    f,
                    res,
                ));
            }
        }
        res
    }

    /// Takes in one unit: a parameter set is decoded and activated, an atlas-data
    /// unit appends its resolved patch lists to its atlas, and a video unit is handed
    /// to `video`, whose planes are stored with its atlas.
    #[verifier::rlimit(100)]
    pub fn decode_unit<F>(&mut self, payload: &Vec<u8>, video: &F) -> (r: Result<(), UnitFault>)
        where
            F: Fn(UnitKind, AtlasInfo, &Vec<u8>) -> Option<VideoFrames>,
        requires
            old(self).wf(),
            payload@.len() * 8 <= usize::MAX,
            forall|k: UnitKind, i: AtlasInfo, b: &Vec<u8>| video.requires((k, i, b)),
        ensures
            final(self).wf(),
            match header_of(payload@) {
                Err(e) => r == Err::<(), UnitFault>(UnitFault::Fatal(e)) && final(self).atlases@
                    == old(self).atlases@,
                Ok(h) => if h.kind == UnitKind::ParameterSet {
                    &&& final(self).atlases@ == old(self).atlases@
                    &&& match parameter_set_of(body_of(payload@)) {
                        Ok((id, atl)) => r is Ok && (final(self).active matches Some(ps) && ps.id
                            == id && ps.atlases@ == atl),
                        Err(e) => r == Err::<(), UnitFault>(UnitFault::Fatal(e)),
                    }
                } else {
                    &&& !fatal(r)
                    &&& (old(self).active is None || old(self).active.unwrap().id != h.vps_id)
                        ==> r == Err::<(), UnitFault>(UnitFault::NoParameterSet)
                    &&& r is Ok ==> final(self).has_atlas(h.atlas_id)
                    &&& final(self).active == old(self).active
                    &&& (old(self).active is Some && old(self).active.unwrap().id == h.vps_id) ==> {
                        if !old(self).declares(h.atlas_id) {
                            r == Err::<(), UnitFault>(UnitFault::UnknownAtlas)
                        } else if h.kind == UnitKind::AtlasData {
                            match atlas_lists(body_of(payload@), old(self).last_list_of(h.atlas_id)) {
                                Ok(ls) => r is Ok && final(self).lists_of(h.atlas_id) == old(
                                    self,
                                ).lists_of(h.atlas_id) + ls && final(self).planes_of_atlas(
                                    h.atlas_id,
                                ) == old(self).planes_of_atlas(h.atlas_id),
                                Err(e) => r == Err::<(), UnitFault>(UnitFault::Patches(e))
                                    && final(self).lists_of(h.atlas_id) == old(self).lists_of(
                                    h.atlas_id,
                                ),
                            }
                        } else {
                            &&& final(self).lists_of(h.atlas_id) == old(self).lists_of(h.atlas_id)
                            &&& exists|b: &Vec<u8>, f: Option<VideoFrames>|
                                b@ == body_of(payload@) && video.ensures(
                                    (h.kind, old(self).info_of(h.atlas_id), b),
                                    f,
                                ) && stored(
                                    old(self).planes_of_atlas(h.atlas_id),
                                    final(self).planes_of_atlas(h.atlas_id),
                                    h.kind,
                                    f,
                                    r,
                                )
                        }
                    }
                },
            },
    {
        let h = match parse_header(payload) {
            Ok(h) => h,
            Err(e) => {
                return Err(UnitFault::Fatal(e));
            },
        };
        let body = unit_body(payload);
        if h.kind == UnitKind::ParameterSet {
            return match decode_parameter_set(&body) {
                Ok(ps) => {
                    self.activate(ps);
                    Ok(())
                },
                Err(e) => Err(UnitFault::Fatal(e)),
            };
        }
        let (declared, info) = match &self.active {
            Some(ps) => {
                if ps.id != h.vps_id {
                    return Err(UnitFault::NoParameterSet);
                }
                if (h.atlas_id as usize) < ps.atlases.len() {
                    (true, ps.atlases[h.atlas_id as usize])
                } else {
                    (false, AtlasInfo { width: 0, height: 0, has_attribute: false })
                }
            },
            None => {
                return Err(UnitFault::NoParameterSet);
            },
        };
        if !declared {
            return Err(UnitFault::UnknownAtlas);
        }
        let ghost before = *self;
        assert(info == old(self).info_of(h.atlas_id));
        let res = self.take_into_atlas(h.kind, h.atlas_id, info, &body, video);
        proof {
            if h.kind != UnitKind::AtlasData {
                let f = choose|f: Option<VideoFrames>|
                    video.ensures((h.kind, info, &body), f) && stored(
                        before.planes_of_atlas(h.atlas_id),
                        self.planes_of_atlas(h.atlas_id),
                        h.kind,
                        f,
                        res,
                    );
                assert(before.planes_of_atlas(h.atlas_id) == old(self).planes_of_atlas(h.atlas_id));
                let b = &body;
                assert(b@ == body_of(payload@) && video.ensures(
                    (h.kind, old(self).info_of(h.atlas_id), b),
                    f,
                ) && stored(
                    old(self).planes_of_atlas(h.atlas_id),
                    self.planes_of_atlas(h.atlas_id),
                    h.kind,
                    f,
                    res,
                ));
            }
        }
        res
    }
}

/// The samples of frame `k` of raw 8-bit decoder output whose frames are
/// `frame_len` bytes long: the first `n` bytes of the frame.
pub open spec fn raw_frame(raw: Seq<u8>, frame_len: int, k: int, n: nat) -> Seq<u16> {
    Seq::new(n, |j: int| raw[k * frame_len + j] as u16)
}

proof fn lemma_frame_in_range(len: int, frame_len: int, k: int, j: int)
    requires
        frame_len > 0,
        len % frame_len == 0,
        0 <= k < len / frame_len,
        0 <= j < frame_len,
    ensures
        0 <= k * frame_len + j < len,
{
    vstd::arithmetic::div_mod::lemma_fundamental_div_mod(len, frame_len);
    let c = len / frame_len;
    assert(k * frame_len + j < (k + 1) * frame_len) by (nonlinear_arith)
        requires
            j < frame_len,
    ;
    assert((k + 1) * frame_len <= c * frame_len) by (nonlinear_arith)
        requires
            k + 1 <= c,
            frame_len > 0,
    ;
    assert(0 <= k * frame_len) by (nonlinear_arith)
        requires
            k >= 0,
            frame_len > 0,
    ;
}

/// Cuts raw 8-bit decoder output into planes of `width` by `height` samples, one per
/// frame of `frame_len` bytes (the luma plane comes first in each frame). `None`
/// when the sizes do not fit or the output is not a whole number of frames.
pub fn planes_from_raw(raw: &Vec<u8>, width: usize, height: usize, frame_len: usize) -> (r: Option<
    Vec<Plane>,
>)
    ensures
        r is Some <==> (width * height > 0 && width * height <= frame_len && (raw@.len() as int) % (frame_len as int)
            as int == 0),
        r matches Some(ps) ==> {
            &&& ps@.len() == (raw@.len() as int) / (frame_len as int)
            &&& forall|k: int|
                0 <= k < ps@.len() ==> (#[trigger] ps@[k]).width == width && ps@[k].height
                    == height && ps@[k].samples@ == raw_frame(
                    raw@,
                    frame_len as int,
                    k,
                    (width * height) as nat,
                )
        },
{
    let n = match width.checked_mul(height) {
        Some(n) => n,
        None => {
            proof {
                assert(width * height > usize::MAX);
            }
            return None;
        },
    };
    if n == 0 || n > frame_len || raw.len() % frame_len != 0 {
        return None;
    }
    let len = raw.len();
    let count = len / frame_len;
    let mut planes: Vec<Plane> = Vec::new();
    let mut k: usize = 0;
    while k < count
        invariant
            n == width * height,
            len == raw@.len(),
            0 < n <= frame_len,
            (raw@.len() as int) % (frame_len as int) == 0,
            count == (raw@.len() as int) / (frame_len as int),
            k <= count,
            planes@.len() == k,
            forall|k2: int|
                0 <= k2 < k ==> (#[trigger] planes@[k2]).width == width && planes@[k2].height
                    == height && planes@[k2].samples@ == raw_frame(
                    raw@,
                    frame_len as int,
                    k2,
                    n as nat,
                ),
        decreases count - k,
    {
        proof {
            lemma_frame_in_range(raw@.len() as int, frame_len as int, k as int, 0);
        }
        let base = k * frame_len;
        let mut samples: Vec<u16> = Vec::new();
        let mut i: usize = 0;
        while i < n
            invariant
                n == width * height,
                len == raw@.len(),
                0 < n <= frame_len,
                (raw@.len() as int) % (frame_len as int) == 0,
                count == (raw@.len() as int) / (frame_len as int),
                k < count,
                base == k * frame_len,
                i <= n,
                samples@ == Seq::new(i as nat, |j: int| raw@[base + j] as u16),
            decreases n - i,
        {
            proof {
                lemma_frame_in_range(raw@.len() as int, frame_len as int, k as int, i as int);
            }
            samples.push(raw[base + i] as u16);
            assert(samples@ =~= Seq::new((i + 1) as nat, |j: int| raw@[base + j] as u16));
            i = i + 1;
        }
        assert(samples@ =~= raw_frame(raw@, frame_len as int, k as int, n as nat));
        planes.push(Plane { width, height, samples });
        k = k + 1;
    }
    Some(planes)
}

/// The colors of frame `k` of raw planar 8-bit output with `n` samples per plane:
/// the red, green and blue planes follow one another.
pub open spec fn raw_colors(raw: Seq<u8>, n: nat, k: int) -> Seq<Color> {
    Seq::new(
        n,
        |j: int|
            Color {
                r: raw[k * (3 * n) + j],
                g: raw[k * (3 * n) + n + j],
                b: raw[k * (3 * n) + 2 * n + j],
            },
    )
}

/// Cuts raw planar 8-bit color output into attribute planes of `width` by `height`.
/// `None` when the sizes do not fit or the output is not a whole number of frames.
pub fn color_planes_from_raw(raw: &Vec<u8>, width: usize, height: usize) -> (r: Option<
    Vec<ColorPlane>,
>)
    ensures
        r is Some <==> (width * height > 0 && 3 * width * height <= usize::MAX && (
        raw@.len() as int) % (3 * width * height) == 0),
        r matches Some(ps) ==> {
            &&& ps@.len() == (raw@.len() as int) / (3 * width * height)
            &&& forall|k: int|
                0 <= k < ps@.len() ==> (#[trigger] ps@[k]).width == width && ps@[k].height
                    == height && ps@[k].samples@ == raw_colors(raw@, (width * height) as nat, k)
        },
{
    let n = match width.checked_mul(height) {
        Some(n) => n,
        None => {
            proof {
                assert(width * height > usize::MAX);
                assert(3 * width * height > usize::MAX) by (nonlinear_arith)
                    requires
                        width * height > usize::MAX,
                ;
            }
            return None;
        },
    };
    assert(3 * width * height == 3 * n) by (nonlinear_arith)
        requires
            n == width * height,
    ;
    let frame_len = match n.checked_mul(3) {
        Some(f) => f,
        None => {
            return None;
        },
    };
    if n == 0 || raw.len() % frame_len != 0 {
        return None;
    }
    let len = raw.len();
    let count = len / frame_len;
    let mut planes: Vec<ColorPlane> = Vec::new();
    let mut k: usize = 0;
    while k < count
        invariant
            n == width * height,
            len == raw@.len(),
            n > 0,
            frame_len == 3 * n,
            (raw@.len() as int) % (frame_len as int) == 0,
            count == (raw@.len() as int) / (frame_len as int),
            k <= count,
            planes@.len() == k,
            forall|k2: int|
                0 <= k2 < k ==> (#[trigger] planes@[k2]).width == width && planes@[k2].height
                    == height && planes@[k2].samples@ == raw_colors(raw@, n as nat, k2),
        decreases count - k,
    {
        proof {
            lemma_frame_in_range(raw@.len() as int, frame_len as int, k as int, 0);
        }
        let base = k * frame_len;
        let mut samples: Vec<Color> = Vec::new();
        let mut i: usize = 0;
        while i < n
            invariant
                n == width * height,
                len == raw@.len(),
                n > 0,
                frame_len == 3 * n,
                (raw@.len() as int) % (frame_len as int) == 0,
                count == (raw@.len() as int) / (frame_len as int),
                k < count,
                base == k * frame_len,
                i <= n,
                samples@ == raw_colors(raw@, n as nat, k as int).take(i as int),
            decreases n - i,
        {
            proof {
                lemma_frame_in_range(raw@.len() as int, frame_len as int, k as int, i as int);
                lemma_frame_in_range(raw@.len() as int, frame_len as int, k as int, n + i);
                lemma_frame_in_range(raw@.len() as int, frame_len as int, k as int, 2 * n + i);
            }
            let c = Color { r: raw[base + i], g: raw[base + n + i], b: raw[base + 2 * n + i] };
            samples.push(c);
            assert(samples@ =~= raw_colors(raw@, n as nat, k as int).take(i + 1));
            i = i + 1;
        }
        assert(samples@ =~= raw_colors(raw@, n as nat, k as int));
        planes.push(ColorPlane { width, height, samples });
        k = k + 1;
    }
    Some(planes)
}

} // verus!
