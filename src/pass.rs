//! One decode pass over a stream, handing out frames one at a time.
//!
//! Units are taken in groups: a group starts at a unit (normally a parameter set)
//! and runs up to the next parameter set. Each group is decoded into a fresh
//! context, then its frames are rebuilt atlas by atlas in frame order. A frame whose
//! patches or planes are unusable is skipped; a framing or unit-type error ends the
//! pass.
use vstd::prelude::*;
use crate::container::{FramingError, byte_views, split_units, stream_units, units_from};
use crate::context::{Context, UnitFault, VideoFrames};
use crate::geometry::PointSet3;
use crate::units::{AtlasInfo, UnitError, UnitKind, parse_header};

verus! {

#[derive(Debug, Clone, Copy, PartialEq, Eq, Structural)]
pub enum PassError {
    Framing(FramingError),
    Unit(UnitError),
}

pub struct Pass {
    pub units: Vec<Vec<u8>>,
    pub next: usize,
    pub ctx: Context,
    pub atlas: usize,
    pub frame: usize,
    pub error: Option<PassError>,
}

/// `(a1, i1)` comes no later than `(a2, i2)` in atlas-then-frame order.
pub open spec fn not_after(a1: int, i1: int, a2: int, i2: int) -> bool {
    a1 < a2 || (a1 == a2 && i1 <= i2)
}

proof fn lemma_units_short(data: Seq<u8>, w: int, pos: int)
    requires
        w >= 1,
        pos >= 0,
    ensures
        units_from(data, w, pos) matches Ok(s) ==> forall|i: int|
            0 <= i < s.len() ==> (#[trigger] s[i]).len() <= data.len(),
    decreases data.len() - pos,
{
    if pos < data.len() && pos + w <= data.len() {
        let size = crate::container::be_value(data.subrange(pos, pos + w));
        if size <= data.len() - pos - w {
            lemma_units_short(data, w, pos + w + size);
            let head = data.subrange(pos + w, pos + w + size);
            match units_from(data, w, pos + w + size) {
                Ok(rest) => {
                    let s = seq![head] + rest;
                    assert forall|i: int| 0 <= i < s.len() implies (#[trigger] s[i]).len()
                        <= data.len() by {
                        if i > 0 {
                            assert(s[i] == rest[i - 1]);
                        }
                    }
                },
                Err(_) => {},
            }
        }
    }
}

impl Pass {
    pub open spec fn ready_at(&self, a: int) -> int {
        self.ctx.atlases@[a].ready()
    }

    pub open spec fn wf(&self) -> bool {
        &&& self.next <= self.units@.len()
        &&& self.ctx.wf()
        &&& forall|i: int| 0 <= i < self.units@.len() ==> (#[trigger] self.units@[i])@.len() * 8
            <= usize::MAX
        &&& self.atlas <= self.ctx.atlases@.len()
        &&& self.atlas < self.ctx.atlases@.len() ==> self.frame <= self.ready_at(self.atlas as int)
    }

    /// A frame at or after the cursor in the current group has every buffer and rebuilds.
    pub open spec fn has_rebuildable(&self) -> bool {
        exists|a: int, i: int|
            0 <= a < self.ctx.atlases@.len() && 0 <= i < self.ready_at(a) && not_after(
                self.atlas as int,
                self.frame as int,
                a,
                i,
            ) && #[trigger] self.ctx.atlases@[a].frame_ok(i)
    }

    /// Frames left to look at in the current atlas.
    pub open spec fn left_in_atlas(&self) -> int {
        if self.atlas < self.ctx.atlases@.len() {
            self.ready_at(self.atlas as int) - self.frame
        } else {
            0
        }
    }

    /// The frames from `(a0, i0)` up to, not including, `(a1, i1)` were all passed over.
    pub open spec fn skipped_between(&self, a0: int, i0: int, a1: int, i1: int) -> bool {
        forall|a: int, i: int|
            0 <= a < self.ctx.atlases@.len() && 0 <= i < self.ready_at(a) && not_after(a0, i0, a, i)
                && !not_after(a1, i1, a, i) ==> !(#[trigger] self.ctx.atlases@[a].frame_ok(i))
    }

    /// The frames from `(a0, i0)` up to the cursor were all passed over.
    pub open spec fn skipped_since(&self, a0: int, i0: int) -> bool {
        self.skipped_between(a0, i0, self.atlas as int, self.frame as int)
    }

    /// Starts a pass over `data`. A framing error ends it before any unit is read.
    pub fn new(data: &Vec<u8>) -> (r: Pass)
        requires
            data@.len() * 8 <= usize::MAX,
        ensures
            r.wf(),
            r.next == 0,
            r.ctx.atlases@.len() == 0,
            match stream_units(data@) {
                Ok(us) => byte_views(r.units@) == us && r.error is None,
                Err(e) => r.units@.len() == 0 && r.error == Some(PassError::Framing(e)),
            },
    {
        let (units, error) = match split_units(data) {
            Ok(units) => (units, None),
            Err(e) => (Vec::new(), Some(PassError::Framing(e))),
        };
        proof {
            if data@.len() > 0 {
                lemma_units_short(data@, crate::container::size_width(data@), 1);
            }
            if error is None {
                assert forall|i: int| 0 <= i < units@.len() implies (#[trigger] units@[i])@.len()
                    * 8 <= usize::MAX by {
                    assert(byte_views(units@)[i] == units@[i]@);
                }
            }
        }
        Pass { units, next: 0, ctx: Context::new(), atlas: 0, frame: 0, error }
    }

    /// The next frame of the current group that rebuilds, passing over those that do not.
    pub fn emit_ready(&mut self) -> (r: Option<PointSet3>)
        requires
            old(self).wf(),
        ensures
            final(self).wf(),
            final(self).units == old(self).units,
            final(self).next == old(self).next,
            final(self).ctx == old(self).ctx,
            final(self).error == old(self).error,
            not_after(
                old(self).atlas as int,
                old(self).frame as int,
                final(self).atlas as int,
                final(self).frame as int,
            ),
            match r {
                Some(pc) => {
                    let a = final(self).atlas as int;
                    let i = final(self).frame - 1;
                    &&& 0 <= i
                    &&& a < final(self).ctx.atlases@.len()
                    &&& not_after(old(self).atlas as int, old(self).frame as int, a, i)
                    &&& final(self).ctx.atlases@[a].frame_ok(i)
                    &&& final(self).ctx.atlases@[a].frame_is(i, pc)
                    &&& final(self).skipped_between(
                        old(self).atlas as int,
                        old(self).frame as int,
                        a,
                        i,
                    )
                },
                None => {
                    &&& final(self).atlas == final(self).ctx.atlases@.len()
                    &&& final(self).skipped_since(old(self).atlas as int, old(self).frame as int)
                },
            },
    {
        while self.atlas < self.ctx.atlases.len()
            invariant
                self.wf(),
                self.units == old(self).units,
                self.next == old(self).next,
                self.ctx == old(self).ctx,
                self.error == old(self).error,
                not_after(
                    old(self).atlas as int,
                    old(self).frame as int,
                    self.atlas as int,
                    self.frame as int,
                ),
                self.skipped_since(old(self).atlas as int, old(self).frame as int),
            decreases self.ctx.atlases@.len() - self.atlas, self.left_in_atlas(),
        {
            let st = &self.ctx.atlases[self.atlas];
            if self.frame < st.ready_frames() {
                let i = self.frame;
                self.frame = self.frame + 1;
                match st.frame(i) {
                    Ok(pc) => {
                        return Some(pc);
                    },
                    Err(_) => {},
                }
            } else {
                self.atlas = self.atlas + 1;
                self.frame = 0;
            }
        }
        None
    }

    /// Decodes the next group of units into a fresh context. Returns false when the
    /// pass is over: the stream is used up or a fatal error came.
    pub fn load_group<F>(&mut self, video: &F) -> (r: bool)
        where
            F: Fn(UnitKind, AtlasInfo, &Vec<u8>) -> Option<VideoFrames>,
        requires
            old(self).wf(),
            forall|k: UnitKind, i: AtlasInfo, b: &Vec<u8>| video.requires((k, i, b)),
        ensures
            final(self).wf(),
            final(self).units == old(self).units,
            r ==> final(self).next > old(self).next && final(self).atlas == 0 && final(self).frame
                == 0 && final(self).error is None,
            !r ==> final(self).next == final(self).units@.len() && final(self).atlas
                == final(self).ctx.atlases@.len(),
            old(self).error is Some ==> !r && final(self).error == old(self).error,
            old(self).error is None && old(self).next == old(self).units@.len() ==> !r
                && final(self).error is None,
            old(self).error is None && old(self).next < old(self).units@.len() ==> (r
                || final(self).error is Some),
    {
        if self.error.is_some() || self.next >= self.units.len() {
            self.next = self.units.len();
            self.atlas = self.ctx.atlases.len();
            return false;
        }
        self.ctx = Context::new();
        self.atlas = 0;
        self.frame = 0;
        let mut first = true;
        let mut done = false;
        while !done && self.next < self.units.len()
            invariant
                self.wf(),
                old(self).error is None,
                forall|k: UnitKind, i: AtlasInfo, b: &Vec<u8>| video.requires((k, i, b)),
                self.units == old(self).units,
                self.error is None,
                self.atlas == 0,
                self.frame == 0,
                first ==> self.next == old(self).next,
                !first ==> self.next > old(self).next,
                old(self).next < self.units@.len(),
                done ==> !first,
            decreases self.units@.len() - self.next + if done {
                0int
            } else {
                1int
            },
        {
            let mut stop = false;
            if !first {
                match parse_header(&self.units[self.next]) {
                    Ok(h) => {
                        if h.kind == UnitKind::ParameterSet {
                            stop = true;
                        }
                    },
                    Err(_) => {},
                }
            }
            if stop {
                done = true;
            } else {
                first = false;
                let res = self.ctx.decode_unit(&self.units[self.next], video);
                self.next = self.next + 1;
                match res {
                    Err(UnitFault::Fatal(e)) => {
                        self.error = Some(PassError::Unit(e));
                        self.next = self.units.len();
                        self.atlas = self.ctx.atlases.len();
                        return false;
                    },
                    _ => {},
                }
            }
        }
        true
    }

    /// The next frame of the pass, or `None` once the pass is over.
    pub fn next_frame<F>(&mut self, video: &F) -> (r: Option<PointSet3>)
        where
            F: Fn(UnitKind, AtlasInfo, &Vec<u8>) -> Option<VideoFrames>,
        requires
            old(self).wf(),
            forall|k: UnitKind, i: AtlasInfo, b: &Vec<u8>| video.requires((k, i, b)),
        ensures
            final(self).wf(),
            final(self).units == old(self).units,
            old(self).error is Some ==> final(self).error == old(self).error,
            old(self).has_rebuildable() ==> r is Some,
            old(self).next == old(self).units@.len() && old(self).atlas
                == old(self).ctx.atlases@.len() ==> r is None && final(self).next
                == old(self).next,
            match r {
                Some(pc) => {
                    let a = final(self).atlas as int;
                    let i = final(self).frame - 1;
                    &&& 0 <= i
                    &&& final(self).ctx.atlases@[a].frame_ok(i)
                    &&& final(self).ctx.atlases@[a].frame_is(i, pc)
                },
                None => final(self).next == final(self).units@.len() && final(self).atlas
                    == final(self).ctx.atlases@.len(),
            },
    {
        match self.emit_ready() {
            Some(pc) => {
                return Some(pc);
            },
            None => {},
        }
        proof {
            if old(self).has_rebuildable() {
                let (a, i) = choose|a: int, i: int|
                    0 <= a < old(self).ctx.atlases@.len() && 0 <= i < old(self).ready_at(a)
                        && not_after(old(self).atlas as int, old(self).frame as int, a, i)
                        && #[trigger] old(self).ctx.atlases@[a].frame_ok(i);
                assert(!not_after(self.atlas as int, self.frame as int, a, i));
                assert(!self.ctx.atlases@[a].frame_ok(i));
            }
        }
        loop
            invariant
                self.wf(),
                self.units == old(self).units,
                forall|k: UnitKind, i: AtlasInfo, b: &Vec<u8>| video.requires((k, i, b)),
                old(self).error is Some ==> self.error == old(self).error,
                old(self).next == old(self).units@.len() && old(self).atlas
                    == old(self).ctx.atlases@.len() ==> self.next == self.units@.len()
                    && self.atlas == self.ctx.atlases@.len() && self.next == old(self).next,
                self.atlas == self.ctx.atlases@.len(),
                !old(self).has_rebuildable(),
            decreases self.units@.len() - self.next,
        {
            if !self.load_group(video) {
                return None;
            }
            match self.emit_ready() {
                Some(pc) => {
                    return Some(pc);
                },
                None => {},
            }
        }
    }
}

/// When every frame that has all its buffers rebuilds, the pass drops none of them:
/// every ready frame from where the cursor stood up to the next frame handed out
/// (or the end of the group) is that frame itself or comes after it.
pub proof fn lemma_no_ready_frame_dropped(p: Pass, a0: int, i0: int, a1: int, i1: int)
    requires
        p.skipped_between(a0, i0, a1, i1),
        forall|a: int, i: int|
            0 <= a < p.ctx.atlases@.len() && 0 <= i < p.ready_at(a) ==> (
            #[trigger] p.ctx.atlases@[a].frame_ok(i)),
    ensures
        forall|a: int, i: int|
            0 <= a < p.ctx.atlases@.len() && 0 <= i < p.ready_at(a) && not_after(a0, i0, a, i)
                ==> #[trigger] not_after(a1, i1, a, i),
{
    assert forall|a: int, i: int|
        0 <= a < p.ctx.atlases@.len() && 0 <= i < p.ready_at(a) && not_after(
            a0,
            i0,
            a,
            i,
        ) implies #[trigger] not_after(a1, i1, a, i) by {
        if !not_after(a1, i1, a, i) {
            assert(!p.ctx.atlases@[a].frame_ok(i));
        }
    }
}

} // verus!
