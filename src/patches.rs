//! Per-frame patch lists: intra-coded lists and delta edits against the previous list.
//!
//! Layout of an atlas-data body, all fields big-endian:
//! a frame count (8 bits), then per frame a mode (8 bits: 0 intra, 1 delta) and a
//! count (8 bits) of patches (intra) or edits (delta). An edit is an operation
//! (8 bits: 0 add a patch, 1 remove the patch at an index, 2 replace it) followed by
//! an index (8 bits, for remove and replace) and a patch (for add and replace).
//! A patch is axis (8), rotation flag (8), then u0, v0, size_u, size_v, u1, v1,
//! d1 (16 each).
use vstd::prelude::*;
use crate::bitreader::{BitReader, bits_value, lemma_bits_bound};
use crate::geometry::Patch;

verus! {

pub const PATCH_BITS: usize = 128;

#[derive(Debug, Clone, Copy, PartialEq, Eq, Structural)]
pub enum PatchEdit {
    Add(Patch),
    Remove(u8),
    Update(u8, Patch),
}

#[derive(Debug, Clone, Copy, PartialEq, Eq, Structural)]
pub enum AtlasError {
    OutOfData,
    UnknownPatchMode,
    BadAxis,
    /// A delta names a patch that the previous list does not have, or there is no previous list.
    UnresolvedReference,
}

pub open spec fn apply_edit(list: Seq<Patch>, e: PatchEdit) -> Result<Seq<Patch>, AtlasError> {
    match e {
        PatchEdit::Add(p) => Ok(list.push(p)),
        PatchEdit::Remove(i) => if i < list.len() {
            Ok(list.remove(i as int))
        } else {
            Err(AtlasError::UnresolvedReference)
        },
        PatchEdit::Update(i, p) => if i < list.len() {
            Ok(list.update(i as int, p))
        } else {
            Err(AtlasError::UnresolvedReference)
        },
    }
}

/// The list that the first `n` edits make of `list`, applied in order.
pub open spec fn apply_edits(list: Seq<Patch>, edits: Seq<PatchEdit>, n: nat) -> Result<
    Seq<Patch>,
    AtlasError,
>
    decreases n,
{
    if n == 0 {
        Ok(list)
    } else {
        match apply_edits(list, edits, (n - 1) as nat) {
            Ok(l) => apply_edit(l, edits[n - 1]),
            Err(e) => Err(e),
        }
    }
}

proof fn lemma_edits_err_stays(list: Seq<Patch>, edits: Seq<PatchEdit>, k: nat, m: nat)
    requires
        k <= m,
        apply_edits(list, edits, k) is Err,
    ensures
        apply_edits(list, edits, m) == apply_edits(list, edits, k),
    decreases m - k,
{
    if m > k {
        lemma_edits_err_stays(list, edits, k, (m - 1) as nat);
    }
}

/// A delta that removes a frame's only patch and adds another leaves exactly the
/// new patch: nothing of the removed one survives into the resolved list.
pub proof fn lemma_replace_only_patch(old_patch: Patch, new_patch: Patch)
    ensures
        apply_edits(seq![old_patch], seq![PatchEdit::Remove(0), PatchEdit::Add(new_patch)], 2)
            == Ok::<Seq<Patch>, AtlasError>(seq![new_patch]),
{
    let edits = seq![PatchEdit::Remove(0), PatchEdit::Add(new_patch)];
    assert(apply_edits(seq![old_patch], edits, 0) == Ok::<Seq<Patch>, AtlasError>(seq![old_patch]));
    assert(seq![old_patch].remove(0) =~= Seq::<Patch>::empty());
    assert(apply_edits(seq![old_patch], edits, 1) == Ok::<Seq<Patch>, AtlasError>(
        Seq::<Patch>::empty(),
    ));
    assert(Seq::<Patch>::empty().push(new_patch) =~= seq![new_patch]);
}

/// Applies delta edits to the previous frame's list, giving the resolved list.
pub fn resolve(previous: &Vec<Patch>, edits: &Vec<PatchEdit>) -> (r: Result<Vec<Patch>, AtlasError>)
    ensures
        match apply_edits(previous@, edits@, edits@.len()) {
            Ok(l) => r matches Ok(v) && v@ == l,
            Err(e) => r == Err::<Vec<Patch>, AtlasError>(e),
        },
{
    let mut list = previous.clone();
    let mut i: usize = 0;
    while i < edits.len()
        invariant
            i <= edits@.len(),
            apply_edits(previous@, edits@, i as nat) == Ok::<Seq<Patch>, AtlasError>(list@),
        decreases edits@.len() - i,
    {
        match edits[i] {
            PatchEdit::Add(p) => {
                list.push(p);
            },
            PatchEdit::Remove(k) => {
                if (k as usize) < list.len() {
                    list.remove(k as usize);
                } else {
                    proof {
                        lemma_edits_err_stays(previous@, edits@, (i + 1) as nat, edits@.len());
                    }
                    return Err(AtlasError::UnresolvedReference);
                }
            },
            PatchEdit::Update(k, p) => {
                if (k as usize) < list.len() {
                    list.set(k as usize, p);
                } else {
                    proof {
                        lemma_edits_err_stays(previous@, edits@, (i + 1) as nat, edits@.len());
                    }
                    return Err(AtlasError::UnresolvedReference);
                }
            },
        }
        i = i + 1;
    }
    Ok(list)
}

pub open spec fn field8(data: Seq<u8>, pos: int) -> nat {
    bits_value(data, pos, 8)
}

pub open spec fn field16(data: Seq<u8>, pos: int) -> nat {
    bits_value(data, pos, 16)
}

/// The patch coded at bit `pos`, when the data holds one there.
pub open spec fn patch_at(data: Seq<u8>, pos: int) -> Result<(Patch, int), AtlasError> {
    if pos + PATCH_BITS > data.len() * 8 {
        Err(AtlasError::OutOfData)
    } else if field8(data, pos) > 2 {
        Err(AtlasError::BadAxis)
    } else {
        Ok(
            (
                Patch {
                    axis: field8(data, pos) as u8,
                    swap_uv: field8(data, pos + 8) != 0,
                    u0: field16(data, pos + 16) as u16,
                    v0: field16(data, pos + 32) as u16,
                    size_u: field16(data, pos + 48) as u16,
                    size_v: field16(data, pos + 64) as u16,
                    u1: field16(data, pos + 80) as u16,
                    v1: field16(data, pos + 96) as u16,
                    d1: field16(data, pos + 112) as u16,
                },
                pos + PATCH_BITS,
            ),
        )
    }
}

/// `n` patches coded one after another from bit `pos`, and where they end.
pub open spec fn patches_at(data: Seq<u8>, pos: int, n: nat) -> Result<(Seq<Patch>, int), AtlasError>
    decreases n,
{
    if n == 0 {
        Ok((seq![], pos))
    } else {
        match patches_at(data, pos, (n - 1) as nat) {
            Ok((ps, q)) => match patch_at(data, q) {
                Ok((p, q2)) => Ok((ps.push(p), q2)),
                Err(e) => Err(e),
            },
            Err(e) => Err(e),
        }
    }
}

pub open spec fn edit_at(data: Seq<u8>, pos: int) -> Result<(PatchEdit, int), AtlasError> {
    if pos + 8 > data.len() * 8 {
        Err(AtlasError::OutOfData)
    } else {
        let op = field8(data, pos);
        if op == 0 {
            match patch_at(data, pos + 8) {
                Ok((p, q)) => Ok((PatchEdit::Add(p), q)),
                Err(e) => Err(e),
            }
        } else if op == 1 || op == 2 {
            if pos + 16 > data.len() * 8 {
                Err(AtlasError::OutOfData)
            } else {
                let k = field8(data, pos + 8) as u8;
                if op == 1 {
                    Ok((PatchEdit::Remove(k), pos + 16))
                } else {
                    match patch_at(data, pos + 16) {
                        Ok((p, q)) => Ok((PatchEdit::Update(k, p), q)),
                        Err(e) => Err(e),
                    }
                }
            }
        } else {
            Err(AtlasError::UnknownPatchMode)
        }
    }
}

pub open spec fn edits_at(data: Seq<u8>, pos: int, n: nat) -> Result<(Seq<PatchEdit>, int), AtlasError>
    decreases n,
{
    if n == 0 {
        Ok((seq![], pos))
    } else {
        match edits_at(data, pos, (n - 1) as nat) {
            Ok((es, q)) => match edit_at(data, q) {
                Ok((e, q2)) => Ok((es.push(e), q2)),
                Err(e) => Err(e),
            },
            Err(e) => Err(e),
        }
    }
}

pub open spec fn reader_ok(r: BitReader) -> bool {
    r.wf() && r.data@.len() * 8 <= usize::MAX
}

pub fn read_patch(r: &mut BitReader) -> (res: Result<Patch, AtlasError>)
    requires
        reader_ok(*old(r)),
    ensures
        reader_ok(*final(r)),
        final(r).data@ == old(r).data@,
        match patch_at(old(r).data@, old(r).pos as int) {
            Ok((p, q)) => res == Ok::<Patch, AtlasError>(p) && final(r).pos == q,
            Err(e) => res == Err::<Patch, AtlasError>(e),
        },
{
    if r.remaining_bytes() < 16 {
        return Err(AtlasError::OutOfData);
    }
    proof {
        lemma_bits_bound(r.data@, r.pos as int, 8);
        lemma_bits_bound(r.data@, r.pos + 8, 8);
        vstd::arithmetic::power2::lemma2_to64();
    }
    let axis = r.read_u8().unwrap();
    if axis > 2 {
        return Err(AtlasError::BadAxis);
    }
    let swap = r.read_u8().unwrap();
    let u0 = r.read_u16().unwrap();
    let v0 = r.read_u16().unwrap();
    let size_u = r.read_u16().unwrap();
    let size_v = r.read_u16().unwrap();
    let u1 = r.read_u16().unwrap();
    let v1 = r.read_u16().unwrap();
    let d1 = r.read_u16().unwrap();
    Ok(Patch { axis, swap_uv: swap != 0, u0, v0, size_u, size_v, u1, v1, d1 })
}

/// The resolved list of one frame coded at bit `pos`, given the list before it.
pub open spec fn frame_at(data: Seq<u8>, pos: int, prev: Option<Seq<Patch>>) -> Result<
    (Seq<Patch>, int),
    AtlasError,
> {
    if pos + 16 > data.len() * 8 {
        Err(AtlasError::OutOfData)
    } else {
        let mode = field8(data, pos);
        let n = field8(data, pos + 8);
        if mode == 0 {
            patches_at(data, pos + 16, n)
        } else if mode == 1 {
            match edits_at(data, pos + 16, n) {
                Ok((es, q)) => match prev {
                    Some(l) => match apply_edits(l, es, es.len()) {
                        Ok(l2) => Ok((l2, q)),
                        Err(e) => Err(e),
                    },
                    None => Err(AtlasError::UnresolvedReference),
                },
                Err(e) => Err(e),
            }
        } else {
            Err(AtlasError::UnknownPatchMode)
        }
    }
}

/// The lists of `n` frames coded from bit `pos`; each delta refers to the list before it.
pub open spec fn frames_at(data: Seq<u8>, pos: int, n: nat, prev: Option<Seq<Patch>>) -> Result<
    (Seq<Seq<Patch>>, int),
    AtlasError,
>
    decreases n,
{
    if n == 0 {
        Ok((seq![], pos))
    } else {
        match frames_at(data, pos, (n - 1) as nat, prev) {
            Ok((ls, q)) => {
                let before = if ls.len() == 0 {
                    prev
                } else {
                    Some(ls.last())
                };
                match frame_at(data, q, before) {
                    Ok((l, q2)) => Ok((ls.push(l), q2)),
                    Err(e) => Err(e),
                }
            },
            Err(e) => Err(e),
        }
    }
}

/// The patch lists that an atlas-data body codes, given the atlas's last list.
pub open spec fn atlas_lists(body: Seq<u8>, prev: Option<Seq<Patch>>) -> Result<
    Seq<Seq<Patch>>,
    AtlasError,
> {
    if body.len() == 0 {
        Err(AtlasError::OutOfData)
    } else {
        match frames_at(body, 8, field8(body, 0), prev) {
            Ok((ls, _)) => Ok(ls),
            Err(e) => Err(e),
        }
    }
}

pub open spec fn list_views(v: Seq<Vec<Patch>>) -> Seq<Seq<Patch>> {
    v.map_values(|l: Vec<Patch>| l@)
}

proof fn lemma_patches_err_stays(data: Seq<u8>, pos: int, k: nat, m: nat)
    requires
        k <= m,
        patches_at(data, pos, k) is Err,
    ensures
        patches_at(data, pos, m) == patches_at(data, pos, k),
    decreases m - k,
{
    if m > k {
        lemma_patches_err_stays(data, pos, k, (m - 1) as nat);
    }
}

proof fn lemma_edit_list_err_stays(data: Seq<u8>, pos: int, k: nat, m: nat)
    requires
        k <= m,
        edits_at(data, pos, k) is Err,
    ensures
        edits_at(data, pos, m) == edits_at(data, pos, k),
    decreases m - k,
{
    if m > k {
        lemma_edit_list_err_stays(data, pos, k, (m - 1) as nat);
    }
}

proof fn lemma_frames_err_stays(data: Seq<u8>, pos: int, k: nat, m: nat, prev: Option<Seq<Patch>>)
    requires
        k <= m,
        frames_at(data, pos, k, prev) is Err,
    ensures
        frames_at(data, pos, m, prev) == frames_at(data, pos, k, prev),
    decreases m - k,
{
    if m > k {
        lemma_frames_err_stays(data, pos, k, (m - 1) as nat, prev);
    }
}

fn read_patches(r: &mut BitReader, n: u8) -> (res: Result<Vec<Patch>, AtlasError>)
    requires
        reader_ok(*old(r)),
    ensures
        reader_ok(*final(r)),
        final(r).data@ == old(r).data@,
        match patches_at(old(r).data@, old(r).pos as int, n as nat) {
            Ok((ps, q)) => res matches Ok(v) && v@ == ps && final(r).pos == q,
            Err(e) => res == Err::<Vec<Patch>, AtlasError>(e),
        },
{
    let ghost s = r.pos as int;
    let mut v: Vec<Patch> = Vec::new();
    let mut i: u8 = 0;
    while i < n
        invariant
            reader_ok(*r),
            r.data@ == old(r).data@,
            s == old(r).pos,
            i <= n,
            patches_at(r.data@, s, i as nat) == Ok::<(Seq<Patch>, int), AtlasError>(
                (v@, r.pos as int),
            ),
        decreases n - i,
    {
        let p = read_patch(r);
        match p {
            Ok(p) => {
                v.push(p);
            },
            Err(e) => {
                proof {
                    lemma_patches_err_stays(r.data@, s, (i + 1) as nat, n as nat);
                }
                return Err(e);
            },
        }
        i = i + 1;
    }
    Ok(v)
}

fn read_edit(r: &mut BitReader) -> (res: Result<PatchEdit, AtlasError>)
    requires
        reader_ok(*old(r)),
    ensures
        reader_ok(*final(r)),
        final(r).data@ == old(r).data@,
        match edit_at(old(r).data@, old(r).pos as int) {
            Ok((e, q)) => res == Ok::<PatchEdit, AtlasError>(e) && final(r).pos == q,
            Err(e) => res == Err::<PatchEdit, AtlasError>(e),
        },
{
    let op = match r.read_u8() {
        Ok(op) => op,
        Err(_) => {
            return Err(AtlasError::OutOfData);
        },
    };
    proof {
        lemma_bits_bound(old(r).data@, old(r).pos as int, 8);
        vstd::arithmetic::power2::lemma2_to64();
    }
    if op == 0 {
        let p = read_patch(r)?;
        Ok(PatchEdit::Add(p))
    } else if op == 1 || op == 2 {
        let k = match r.read_u8() {
            Ok(k) => k,
            Err(_) => {
                return Err(AtlasError::OutOfData);
            },
        };
        if op == 1 {
            Ok(PatchEdit::Remove(k))
        } else {
            let p = read_patch(r)?;
            Ok(PatchEdit::Update(k, p))
        }
    } else {
        Err(AtlasError::UnknownPatchMode)
    }
}

fn read_edits(r: &mut BitReader, n: u8) -> (res: Result<Vec<PatchEdit>, AtlasError>)
    requires
        reader_ok(*old(r)),
    ensures
        reader_ok(*final(r)),
        final(r).data@ == old(r).data@,
        match edits_at(old(r).data@, old(r).pos as int, n as nat) {
            Ok((es, q)) => res matches Ok(v) && v@ == es && final(r).pos == q,
            Err(e) => res == Err::<Vec<PatchEdit>, AtlasError>(e),
        },
{
    let ghost s = r.pos as int;
    let mut v: Vec<PatchEdit> = Vec::new();
    let mut i: u8 = 0;
    while i < n
        invariant
            reader_ok(*r),
            r.data@ == old(r).data@,
            s == old(r).pos,
            i <= n,
            edits_at(r.data@, s, i as nat) == Ok::<(Seq<PatchEdit>, int), AtlasError>(
                (v@, r.pos as int),
            ),
        decreases n - i,
    {
        match read_edit(r) {
            Ok(e) => {
                v.push(e);
            },
            Err(e) => {
                proof {
                    lemma_edit_list_err_stays(r.data@, s, (i + 1) as nat, n as nat);
                }
                return Err(e);
            },
        }
        i = i + 1;
    }
    Ok(v)
}

fn read_frame(r: &mut BitReader, prev: Option<&Vec<Patch>>) -> (res: Result<
    Vec<Patch>,
    AtlasError,
>)
    requires
        reader_ok(*old(r)),
    ensures
        reader_ok(*final(r)),
        final(r).data@ == old(r).data@,
        match frame_at(
            old(r).data@,
            old(r).pos as int,
            match prev {
                Some(l) => Some(l@),
                None => None,
            },
        ) {
            Ok((l, q)) => res matches Ok(v) && v@ == l && final(r).pos == q,
            Err(e) => res == Err::<Vec<Patch>, AtlasError>(e),
        },
{
    if r.remaining_bytes() < 2 {
        return Err(AtlasError::OutOfData);
    }
    proof {
        lemma_bits_bound(r.data@, r.pos as int, 8);
        lemma_bits_bound(r.data@, r.pos + 8, 8);
        vstd::arithmetic::power2::lemma2_to64();
    }
    let mode = r.read_u8().unwrap();
    let n = r.read_u8().unwrap();
    if mode == 0 {
        read_patches(r, n)
    } else if mode == 1 {
        let edits = read_edits(r, n)?;
        match prev {
            Some(l) => resolve(l, &edits),
            None => Err(AtlasError::UnresolvedReference),
        }
    } else {
        Err(AtlasError::UnknownPatchMode)
    }
}

proof fn lemma_frames_step(
    data: Seq<u8>,
    pos: int,
    n: nat,
    prev: Option<Seq<Patch>>,
    ls: Seq<Seq<Patch>>,
    q: int,
)
    requires
        frames_at(data, pos, n, prev) == Ok::<(Seq<Seq<Patch>>, int), AtlasError>((ls, q)),
    ensures
        frames_at(data, pos, n + 1, prev) == match frame_at(
            data,
            q,
            if ls.len() == 0 {
                prev
            } else {
                Some(ls.last())
            },
        ) {
            Ok((l, q2)) => Ok((ls.push(l), q2)),
            Err(e) => Err(e),
        },
{
}

/// Decodes an atlas-data body into one resolved patch list per coded frame.
/// `prev` is the atlas's last list, against which a leading delta is resolved.
#[verifier::rlimit(40)]
pub fn decode_atlas_data(body: &Vec<u8>, prev: Option<&Vec<Patch>>) -> (res: Result<
    Vec<Vec<Patch>>,
    AtlasError,
>)
    requires
        body@.len() * 8 <= usize::MAX,
    ensures
        match atlas_lists(
            body@,
            match prev {
                Some(l) => Some(l@),
                None => None,
            },
        ) {
            Ok(ls) => res matches Ok(v) && list_views(v@) == ls,
            Err(e) => res == Err::<Vec<Vec<Patch>>, AtlasError>(e),
        },
{
    let ghost pv = match prev {
        Some(l) => Some(l@),
        None => None,
    };
    let mut r = BitReader::new(body.clone());
    let n = match r.read_u8() {
        Ok(n) => n,
        Err(_) => {
            return Err(AtlasError::OutOfData);
        },
    };
    proof {
        lemma_bits_bound(body@, 0, 8);
        vstd::arithmetic::power2::lemma2_to64();
    }
    let mut lists: Vec<Vec<Patch>> = Vec::new();
    assert(list_views(lists@) =~= Seq::<Seq<Patch>>::empty());
    let mut i: u8 = 0;
    while i < n
        invariant
            reader_ok(r),
            r.data@ == body@,
            i <= n,
            lists@.len() == i,
            n == field8(body@, 0),
            pv == match prev {
                Some(l) => Some(l@),
                None => None::<Seq<Patch>>,
            },
            frames_at(body@, 8, i as nat, pv) == Ok::<(Seq<Seq<Patch>>, int), AtlasError>(
                (list_views(lists@), r.pos as int),
            ),
        decreases n - i,
    {
        let before: Option<&Vec<Patch>> = if lists.len() == 0 {
            prev
        } else {
            Some(&lists[lists.len() - 1])
        };
        proof {
            let ghost bv = match before {
                Some(l) => Some(l@),
                None => None::<Seq<Patch>>,
            };
            if lists@.len() > 0 {
                assert(list_views(lists@).last() == lists@.last()@);
            }
            assert(bv == if list_views(lists@).len() == 0 {
                pv
            } else {
                Some(list_views(lists@).last())
            });
        }
        let ghost q = r.pos as int;
        proof {
            lemma_frames_step(body@, 8, i as nat, pv, list_views(lists@), q);
        }
        let res = read_frame(&mut r, before);
        match res {
            Ok(l) => {
                proof {
                    assert(list_views(lists@.push(l)) =~= list_views(lists@).push(l@));
                }
                lists.push(l);
            },
            Err(e) => {
                proof {
                    lemma_frames_err_stays(body@, 8, (i + 1) as nat, n as nat, pv);
                }
                return Err(e);
            },
        }
        i = i + 1;
    }
    Ok(lists)
}

} // verus!
