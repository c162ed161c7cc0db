//! The binary payload of a computed tile: a reserved signature region, then
//! two big-endian 32-bit floats per pixel.

use vstd::prelude::*;

use crate::codec::{be_at, be_bytes, push_be_u32, read_be_u32, lemma_be_bytes_inverse};
use crate::error::FraktError;
use crate::models::PixelIntensity;

verus! {

/// Length of the reserved signature that opens task and result payloads.
pub const SIGNATURE_LEN: usize = 16;

/// Bytes that encode one pixel.
pub const PIXEL_BYTES: usize = 8;

/// The pixels that the bytes `s` encode, eight bytes each.
pub open spec fn pixels_of(s: Seq<u8>) -> Seq<PixelIntensity> {
    Seq::new(
        s.len() / 8,
        |i: int| PixelIntensity { zn: be_at(s, 8 * i) as u32, count: be_at(s, 8 * i + 4) as u32 },
    )
}

/// The bytes that encode the pixels `p`.
pub open spec fn pixel_bytes(p: Seq<PixelIntensity>) -> Seq<u8>
    decreases p.len(),
{
    if p.len() == 0 {
        Seq::empty()
    } else {
        pixel_bytes(p.drop_last()) + be_bytes(p.last().zn) + be_bytes(p.last().count)
    }
}

/// Decodes the pixels of a result payload: skips the first `offset` bytes, and
/// rejects the payload as a protocol error where `offset` lies past its end or
/// what remains is not a whole number of pixels.
pub fn decode_pixels(data: &[u8], offset: u32) -> (r: Result<Vec<PixelIntensity>, FraktError>)
    ensures
        offset > data@.len() ==> r == Err::<Vec<PixelIntensity>, FraktError>(FraktError::Protocol),
        offset <= data@.len() && (data@.len() - offset) % 8 != 0 ==> r == Err::<
            Vec<PixelIntensity>,
            FraktError,
        >(FraktError::Protocol),
        offset <= data@.len() && (data@.len() - offset) % 8 == 0 ==> (r matches Ok(v) && v@
            == pixels_of(data@.subrange(offset as int, data@.len() as int))),
{
    let start = offset as usize;
    if start > data.len() {
        return Err(FraktError::Protocol);
    }
    if (data.len() - start) % PIXEL_BYTES != 0 {
        return Err(FraktError::Protocol);
    }
    let ghost body = data@.subrange(offset as int, data@.len() as int);
    let len = data.len();
    let n = (len - start) / PIXEL_BYTES;
    let mut out: Vec<PixelIntensity> = Vec::new();
    let mut i: usize = 0;
    while i < n
        invariant
            start == offset,
            len == data@.len(),
            start <= data@.len(),
            n == (data@.len() - start) / 8,
            (data@.len() - start) % 8 == 0,
            body == data@.subrange(offset as int, data@.len() as int),
            i <= n,
            out@ =~= pixels_of(body).take(i as int),
        decreases n - i,
    {
        proof {
            vstd::arithmetic::div_mod::lemma_fundamental_div_mod(data@.len() - start, 8);
            assert(8 * i + 8 <= 8 * n) by (nonlinear_arith)
                requires
                    i < n,
            ;
            assert(8 * n == data@.len() - start);
            assert(start + i * 8 + 8 <= data@.len());
        }
        let pos: usize = start + i * PIXEL_BYTES;
        let zn = read_be_u32(data, pos);
        let count = read_be_u32(data, pos + 4);
        out.push(PixelIntensity { zn, count });
        proof {
            assert(be_at(body, 8 * i) == be_at(data@, start + 8 * i));
            assert(be_at(body, 8 * i + 4) == be_at(data@, start + 8 * i + 4));
        }
        i = i + 1;
    }
    Ok(out)
}

pub proof fn lemma_pixel_bytes_len(p: Seq<PixelIntensity>)
    ensures
        pixel_bytes(p).len() == 8 * p.len(),
    decreases p.len(),
{
    if p.len() > 0 {
        lemma_pixel_bytes_len(p.drop_last());
    }
}

/// Appends the encoding of each pixel of `pixels` to `out`.
pub fn push_pixels(out: &mut Vec<u8>, pixels: &Vec<PixelIntensity>)
    ensures
        final(out)@ == old(out)@ + pixel_bytes(pixels@),
{
    let mut i: usize = 0;
    while i < pixels.len()
        invariant
            i <= pixels@.len(),
            out@ == old(out)@ + pixel_bytes(pixels@.take(i as int)),
        decreases pixels@.len() - i,
    {
        let p = pixels[i];
        push_be_u32(out, p.zn);
        push_be_u32(out, p.count);
        proof {
            let t = pixels@.take(i + 1);
            assert(t.drop_last() =~= pixels@.take(i as int));
            assert(t.last() == p);
        }
        i = i + 1;
    }
    assert(pixels@.take(i as int) =~= pixels@);
}

/// Decoding the encoding of a sequence of pixels gives it back.
pub proof fn lemma_pixels_round_trip(p: Seq<PixelIntensity>)
    ensures
        pixels_of(pixel_bytes(p)) == p,
    decreases p.len(),
{
    lemma_pixel_bytes_len(p);
    if p.len() > 0 {
        let q = p.drop_last();
        lemma_pixels_round_trip(q);
        lemma_pixel_bytes_len(q);
        let s = pixel_bytes(p);
        let sq = pixel_bytes(q);
        let last = p.last();
        lemma_be_bytes_inverse(last.zn);
        lemma_be_bytes_inverse(last.count);
        assert forall|i: int| 0 <= i < p.len() implies #[trigger] pixels_of(s)[i] == p[i] by {
            if i < q.len() {
                assert(be_at(s, 8 * i) == be_at(sq, 8 * i));
                assert(be_at(s, 8 * i + 4) == be_at(sq, 8 * i + 4));
                assert(pixels_of(sq)[i] == q[i]);
            } else {
                assert(be_at(s, 8 * i) == be_at(be_bytes(last.zn), 0));
                assert(be_at(s, 8 * i + 4) == be_at(be_bytes(last.count), 0));
            }
        }
        assert(pixels_of(s) =~= p);
    } else {
        assert(pixels_of(pixel_bytes(p)) =~= p);
    }
}

} // verus!
