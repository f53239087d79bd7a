//! The sample stream of units: a header byte whose top three bits give the width
//! of the size fields (in bytes, minus one), then units, each a big-endian size
//! field followed by that many payload bytes.
use vstd::prelude::*;

verus! {

#[derive(Debug, Clone, Copy, PartialEq, Eq, Structural)]
pub enum FramingError {
    /// The buffer is empty: there is no stream header.
    MissingHeader,
    /// The buffer ends inside a size field.
    TruncatedLength,
    /// A size field declares more bytes than the buffer has left.
    LengthExceedsRemaining,
}

/// The big-endian unsigned value of a byte sequence.
pub open spec fn be_value(s: Seq<u8>) -> nat
    decreases s.len(),
{
    if s.len() == 0 {
        0
    } else {
        be_value(s.drop_last()) * 256 + s.last() as nat
    }
}

pub open spec fn size_width(data: Seq<u8>) -> int {
    ((data[0] >> 5u8) + 1) as int
}

pub open spec fn prefixed(pre: Seq<Seq<u8>>, rest: Result<Seq<Seq<u8>>, FramingError>) -> Result<
    Seq<Seq<u8>>,
    FramingError,
> {
    match rest {
        Ok(s) => Ok(pre + s),
        Err(e) => Err(e),
    }
}

/// The payloads of the units that start at byte `pos`, in stream order.
pub open spec fn units_from(data: Seq<u8>, w: int, pos: int) -> Result<Seq<Seq<u8>>, FramingError>
    decreases data.len() - pos,
    when w >= 1 && pos >= 0
{
    if pos >= data.len() {
        Ok(seq![])
    } else if pos + w > data.len() {
        Err(FramingError::TruncatedLength)
    } else {
        let size = be_value(data.subrange(pos, pos + w));
        if size > data.len() - pos - w {
            Err(FramingError::LengthExceedsRemaining)
        } else {
            let start = pos + w;
            let end = start + size;
            prefixed(seq![data.subrange(start, end)], units_from(data, w, end))
        }
    }
}

/// The payloads of all units of a sample stream.
pub open spec fn stream_units(data: Seq<u8>) -> Result<Seq<Seq<u8>>, FramingError> {
    if data.len() == 0 {
        Err(FramingError::MissingHeader)
    } else {
        units_from(data, size_width(data), 1)
    }
}

pub open spec fn byte_views(v: Seq<Vec<u8>>) -> Seq<Seq<u8>> {
    v.map_values(|b: Vec<u8>| b@)
}

proof fn lemma_be_bound(s: Seq<u8>)
    ensures
        be_value(s) < vstd::arithmetic::power2::pow2(8 * s.len()),
    decreases s.len(),
{
    vstd::arithmetic::power2::lemma_pow2_pos(0);
    if s.len() > 0 {
        lemma_be_bound(s.drop_last());
        let k = (8 * (s.len() - 1)) as nat;
        vstd::arithmetic::power2::lemma_pow2_adds(k, 8);
        vstd::arithmetic::power2::lemma2_to64();
        let p = vstd::arithmetic::power2::pow2(k);
        assert(be_value(s.drop_last()) * 256 + s.last() < p * 256) by (nonlinear_arith)
            requires
                be_value(s.drop_last()) < p,
                s.last() < 256,
        ;
        assert(8 * s.len() == k + 8);
    }
}

/// Reads a `w`-byte big-endian size field at `pos`.
fn read_size(data: &Vec<u8>, pos: usize, w: usize) -> (r: u64)
    requires
        1 <= w <= 8,
        pos + w <= data@.len(),
    ensures
        r == be_value(data@.subrange(pos as int, pos + w)),
{
    let mut acc: u64 = 0;
    let mut k: usize = 0;
    let len = data.len();
    while k < w
        invariant
            len == data@.len(),
            1 <= w <= 8,
            pos + w <= data@.len(),
            k <= w,
            acc == be_value(data@.subrange(pos as int, pos + k)),
        decreases w - k,
    {
        proof {
            let s = data@.subrange(pos as int, pos + k + 1);
            assert(s.drop_last() =~= data@.subrange(pos as int, pos + k));
            lemma_be_bound(data@.subrange(pos as int, pos + k));
            if 8 * k < 56 {
                vstd::arithmetic::power2::lemma_pow2_strictly_increases((8 * k) as nat, 56);
            }
            vstd::arithmetic::power2::lemma2_to64_rest();
            assert(acc < 0x100000000000000);
        }
        acc = acc * 256 + data[pos + k] as u64;
        k = k + 1;
    }
    acc
}

fn copy_range(data: &Vec<u8>, start: usize, end: usize) -> (r: Vec<u8>)
    requires
        start <= end <= data@.len(),
    ensures
        r@ == data@.subrange(start as int, end as int),
{
    let mut out: Vec<u8> = Vec::new();
    let mut i: usize = start;
    while i < end
        invariant
            start <= i <= end <= data@.len(),
            out@ == data@.subrange(start as int, i as int),
        decreases end - i,
    {
        out.push(data[i]);
        proof {
            assert(out@ =~= data@.subrange(start as int, i + 1));
        }
        i = i + 1;
    }
    out
}

/// Splits a sample stream into unit payloads. Any framing error ends the whole stream.
pub fn split_units(data: &Vec<u8>) -> (r: Result<Vec<Vec<u8>>, FramingError>)
    ensures
        match stream_units(data@) {
            Ok(us) => r matches Ok(v) && byte_views(v@) == us,
            Err(e) => r == Err::<Vec<Vec<u8>>, FramingError>(e),
        },
{
    if data.len() == 0 {
        return Err(FramingError::MissingHeader);
    }
    let b0 = data[0];
    let top = b0 >> 5u8;
    assert(top <= 7) by (bit_vector)
        requires
            top == b0 >> 5u8,
    ;
    let w: usize = (top + 1) as usize;
    let ghost d = data@;
    let mut units: Vec<Vec<u8>> = Vec::new();
    let mut pos: usize = 1;
    assert(byte_views(units@) =~= Seq::<Seq<u8>>::empty());
    assert(prefixed(seq![], units_from(d, w as int, 1)) =~= units_from(d, w as int, 1)) by {
        match units_from(d, w as int, 1) {
            Ok(s) => {
                assert(Seq::<Seq<u8>>::empty() + s =~= s);
            },
            Err(_) => {},
        }
    }
    while pos < data.len()
        invariant
            d == data@,
            w == size_width(d),
            1 <= w <= 8,
            1 <= pos,
            stream_units(d) == prefixed(byte_views(units@), units_from(d, w as int, pos as int)),
        decreases data@.len() - pos,
    {
        if w > data.len() - pos {
            return Err(FramingError::TruncatedLength);
        }
        let size = read_size(data, pos, w);
        if size > (data.len() - pos - w) as u64 {
            return Err(FramingError::LengthExceedsRemaining);
        }
        let start = pos + w;
        let end = start + size as usize;
        let payload = copy_range(data, start, end);
        proof {
            let pre = byte_views(units@);
            let rest = units_from(d, w as int, end as int);
            assert(byte_views(units@.push(payload)) =~= pre.push(payload@));
            match rest {
                Ok(s) => {
                    assert(pre + (seq![payload@] + s) =~= pre.push(payload@) + s);
                },
                Err(_) => {},
            }
        }
        units.push(payload);
        pos = end;
    }
    proof {
        assert(byte_views(units@) + Seq::<Seq<u8>>::empty() =~= byte_views(units@));
    }
    Ok(units)
}

} // verus!
