//! The worker side: where each pixel of a task samples the plane, how a
//! computed tile is packed into a result, and the steps of the worker loop.

use vstd::prelude::*;

use crate::models::{FragmentResult, FragmentTask, PixelIntensity, Point, Range, Resolution, U8Data};
use crate::payload::{lemma_pixels_round_trip, pixel_bytes, pixels_of, push_pixels, SIGNATURE_LEN};

verus! {

/// Milliseconds a worker waits after a failed step before starting over.
pub const RETRY_DELAY_MS: u64 = 100;

/// The point that pixel `(x, y)` of an `nx × ny` tile over `r` samples:
/// `(min.x + x·(max.x − min.x)/nx, min.y + y·(max.y − min.y)/ny)`.
pub open spec fn sample_point(r: Range, res: Resolution, x: int, y: int) -> Point {
    Point {
        x: (r.min.x + x * (r.max.x - r.min.x) / res.nx as int) as i64,
        y: (r.min.y + y * (r.max.y - r.min.y) / res.ny as int) as i64,
    }
}

/// `lo + i·(hi − lo)/n`, computed without overflow.
fn lerp(lo: i64, hi: i64, i: u16, n: u16) -> (r: i64)
    requires
        lo <= hi,
        i < n,
    ensures
        r == lo + i * (hi - lo) / n as int,
{
    let ext: u128 = (hi as i128 - lo as i128) as u128;
    assert(i * ext <= 0xffff * 0x1_0000_0000_0000_0000) by (nonlinear_arith)
        requires
            i <= 0xffff,
            ext <= 0x1_0000_0000_0000_0000,
    ;
    let q: u128 = (i as u128) * ext / (n as u128);
    proof {
        assert(i * ext <= n * ext) by (nonlinear_arith)
            requires
                i < n,
                0 <= ext,
        ;
        vstd::arithmetic::div_mod::lemma_div_is_ordered(i * ext, n * ext, n as int);
        vstd::arithmetic::div_mod::lemma_div_multiples_vanish(ext as int, n as int);
        assert(n * ext == (n as int) * (ext as int));
    }
    (lo as i128 + q as i128) as i64
}

/// The point of the plane that pixel `(x, y)` of a tile samples.
pub fn pixel_coordinate(range: &Range, resolution: &Resolution, x: u16, y: u16) -> (r: Point)
    requires
        range.wf(),
        x < resolution.nx,
        y < resolution.ny,
    ensures
        r == sample_point(*range, *resolution, x as int, y as int),
{
    Point {
        x: lerp(range.min.x, range.max.x, x, resolution.nx),
        y: lerp(range.min.y, range.max.y, y, resolution.ny),
    }
}

/// The payload of a result: the zeroed signature, then the pixels.
pub open spec fn result_payload(p: Seq<PixelIntensity>) -> Seq<u8> {
    Seq::new(SIGNATURE_LEN as nat, |i: int| 0u8) + pixel_bytes(p)
}

/// The header of the result that answers `task` with `n` pixels.
pub open spec fn result_of(task: FragmentTask, n: int) -> FragmentResult {
    FragmentResult {
        id: task.id,
        resolution: task.resolution,
        range: task.range,
        pixels: U8Data { offset: SIGNATURE_LEN as u32, count: (n * 8) as u32 },
    }
}

/// Packs the computed pixels of `task`, one per pixel in row-major order, into
/// a result header and its payload: a zeroed signature, then two big-endian
/// words per pixel.
pub fn build_fragment_result(task: &FragmentTask, pixels: &Vec<PixelIntensity>) -> (r: (
    FragmentResult,
    Vec<u8>,
))
    requires
        pixels@.len() == task.resolution.nx * task.resolution.ny,
        pixels@.len() * 8 <= u32::MAX,
    ensures
        r.0 == result_of(*task, pixels@.len() as int),
        r.1@ == result_payload(pixels@),
{
    let mut data: Vec<u8> = Vec::new();
    let mut i: usize = 0;
    while i < SIGNATURE_LEN
        invariant
            i <= SIGNATURE_LEN,
            data@ == Seq::new(i as nat, |j: int| 0u8),
        decreases SIGNATURE_LEN - i,
    {
        data.push(0);
        i = i + 1;
        assert(data@ =~= Seq::new(i as nat, |j: int| 0u8));
    }
    push_pixels(&mut data, pixels);
    let count: u32 = (pixels.len() * 8) as u32;
    let result = FragmentResult {
        id: task.id,
        resolution: task.resolution,
        range: task.range,
        pixels: U8Data { offset: SIGNATURE_LEN as u32, count },
    };
    (result, data)
}

/// The server decodes from a result payload exactly the pixels the worker
/// packed into it: the pixel offset lies within the payload, what follows it is
/// a whole number of pixels, and it decodes to the same sequence.
pub proof fn lemma_result_payload_round_trip(p: Seq<PixelIntensity>)
    ensures
        SIGNATURE_LEN <= result_payload(p).len(),
        (result_payload(p).len() - SIGNATURE_LEN) % 8 == 0,
        pixels_of(result_payload(p).subrange(SIGNATURE_LEN as int, result_payload(p).len() as int))
            == p,
{
    let s = result_payload(p);
    crate::payload::lemma_pixel_bytes_len(p);
    assert(s.subrange(SIGNATURE_LEN as int, s.len() as int) =~= pixel_bytes(p));
    assert((8 * p.len()) % 8 == 0) by (nonlinear_arith);
    lemma_pixels_round_trip(p);
}

/// The steps of a worker's exchange with the coordinator.
#[derive(Debug, Clone, Copy, PartialEq, Eq, Structural)]
pub enum WorkerStep {
    /// Open a connection.
    Connect,
    /// Send a request for work.
    SendRequest,
    /// Read the task that answers it.
    ReadTask,
    /// Compute the task.
    Compute,
    /// Open a new connection for the result.
    ConnectForResult,
    /// Send the result and close.
    SendResult,
}

/// The step after `s` when `s` succeeded.
pub open spec fn following(s: WorkerStep) -> WorkerStep {
    match s {
        WorkerStep::Connect => WorkerStep::SendRequest,
        WorkerStep::SendRequest => WorkerStep::ReadTask,
        WorkerStep::ReadTask => WorkerStep::Compute,
        WorkerStep::Compute => WorkerStep::ConnectForResult,
        WorkerStep::ConnectForResult => WorkerStep::SendResult,
        WorkerStep::SendResult => WorkerStep::Connect,
    }
}

impl WorkerStep {
    /// What comes after this step: the next one at once where it succeeded;
    /// otherwise a fresh connection after `RETRY_DELAY_MS` milliseconds.
    pub fn advance(self, succeeded: bool) -> (r: (WorkerStep, u64))
        ensures
            succeeded ==> r == (following(self), 0u64),
            !succeeded ==> r == (WorkerStep::Connect, RETRY_DELAY_MS),
    {
        if !succeeded {
            return (WorkerStep::Connect, RETRY_DELAY_MS);
        }
        let next = match self {
            WorkerStep::Connect => WorkerStep::SendRequest,
            WorkerStep::SendRequest => WorkerStep::ReadTask,
            WorkerStep::ReadTask => WorkerStep::Compute,
            WorkerStep::Compute => WorkerStep::ConnectForResult,
            WorkerStep::ConnectForResult => WorkerStep::SendResult,
            WorkerStep::SendResult => WorkerStep::Connect,
        };
        (next, 0)
    }
}

} // verus!
