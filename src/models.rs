//! The values exchanged between the coordinator and its workers.
//!
//! Coordinates in the complex plane are fixed-point integers: one unit is
//! `1 / UNITS_PER_ONE`, so `-2.0` is `-2 * UNITS_PER_ONE`.

use vstd::prelude::*;

verus! {

/// Fixed-point units in one unit of the complex plane.
pub const UNITS_PER_ONE: i64 = 1_000_000_000_000;

/// A point of the complex plane, in fixed-point units.
#[derive(Debug, Clone, Copy, PartialEq, Eq, Structural)]
pub struct Point {
    pub x: i64,
    pub y: i64,
}

/// An axis-aligned rectangle of the complex plane.
#[derive(Debug, Clone, Copy, PartialEq, Eq, Structural)]
pub struct Range {
    pub min: Point,
    pub max: Point,
}

impl Range {
    /// `min` lies below and to the left of `max`.
    pub open spec fn wf(&self) -> bool {
        self.min.x <= self.max.x && self.min.y <= self.max.y
    }

    /// Whether `p` lies in the closed rectangle.
    pub open spec fn contains(&self, p: Point) -> bool {
        self.min.x <= p.x <= self.max.x && self.min.y <= p.y <= self.max.y
    }

    /// Whether `other` lies inside this rectangle.
    pub open spec fn encloses(&self, other: Range) -> bool {
        self.contains(other.min) && self.contains(other.max)
    }
}

/// A pixel resolution.
#[derive(Debug, Clone, Copy, PartialEq, Eq, Structural)]
pub struct Resolution {
    pub nx: u16,
    pub ny: u16,
}

/// A region `[offset, offset + count)` of a binary payload.
#[derive(Debug, Clone, Copy, PartialEq, Eq, Structural)]
pub struct U8Data {
    pub offset: u32,
    pub count: u32,
}

/// A region of pixel data inside a payload.
#[derive(Debug, Clone, Copy, PartialEq, Eq, Structural)]
pub struct PixelData {
    pub offset: u32,
    pub count: u32,
}

/// A complex number, in fixed-point units.
#[derive(Debug, Clone, Copy, PartialEq, Eq, Structural)]
pub struct Complex {
    pub re: i64,
    pub im: i64,
}

impl Complex {
    pub fn new(re: i64, im: i64) -> (r: Complex)
        ensures
            r == (Complex { re, im }),
    {
        Complex { re, im }
    }
}

/// One pixel computed by a worker: the final magnitude (or argument) and the
/// iteration measure, each held as the bits of a 32-bit float.
#[derive(Debug, Clone, Copy, PartialEq, Eq, Structural)]
pub struct PixelIntensity {
    pub zn: u32,
    pub count: u32,
}

impl PixelIntensity {
    pub fn new(zn: u32, count: u32) -> (r: PixelIntensity)
        ensures
            r == (PixelIntensity { zn, count }),
    {
        PixelIntensity { zn, count }
    }
}

/// The Julia set of `c`, escaping where `|z|²` reaches the threshold.
#[derive(Debug, Clone, Copy, PartialEq, Eq, Structural)]
pub struct Julia {
    pub c: Complex,
    pub divergence_threshold_square: i64,
}

/// The Mandelbrot set.
#[derive(Debug, Clone, Copy, PartialEq, Eq, Structural)]
pub struct Mandelbrot {}

/// The iteration `z ← sin(z)·c`.
#[derive(Debug, Clone, Copy, PartialEq, Eq, Structural)]
pub struct IteratedSinZ {
    pub c: Complex,
}

/// Newton's method on `z³ − 1`.
#[derive(Debug, Clone, Copy, PartialEq, Eq, Structural)]
pub struct NewtonRaphsonZ3 {}

impl NewtonRaphsonZ3 {
    pub fn new() -> (r: NewtonRaphsonZ3)
        ensures
            r == (NewtonRaphsonZ3 {}),
    {
        NewtonRaphsonZ3 {}
    }
}

/// Newton's method on `z⁴ − 1`.
#[derive(Debug, Clone, Copy, PartialEq, Eq, Structural)]
pub struct NewtonRaphsonZ4 {}

impl NewtonRaphsonZ4 {
    pub fn new() -> (r: NewtonRaphsonZ4)
        ensures
            r == (NewtonRaphsonZ4 {}),
    {
        NewtonRaphsonZ4 {}
    }
}

/// Which fractal a task asks for, with its parameters.
#[derive(Debug, Clone, Copy, PartialEq, Eq, Structural)]
pub enum FractalDescriptor {
    Julia(Julia),
    Mandelbrot(Mandelbrot),
    IteratedSinZ(IteratedSinZ),
    NewtonRaphsonZ3(NewtonRaphsonZ3),
    NewtonRaphsonZ4(NewtonRaphsonZ4),
}

/// A worker asking for work.
#[derive(Debug, Clone)]
pub struct FragmentRequest {
    pub worker_name: String,
    pub maximal_work_load: u32,
}

impl FragmentRequest {
    pub fn new(worker_name: String, maximal_work_load: u32) -> (r: FragmentRequest)
        ensures
            r.worker_name@ == worker_name@,
            r.maximal_work_load == maximal_work_load,
    {
        FragmentRequest { worker_name, maximal_work_load }
    }
}

/// One tile to compute.
#[derive(Debug, Clone, Copy, PartialEq, Eq, Structural)]
pub struct FragmentTask {
    pub id: U8Data,
    pub fractal: FractalDescriptor,
    pub max_iteration: u32,
    pub resolution: Resolution,
    pub range: Range,
}

/// The header of a computed tile; its pixels follow in the payload.
#[derive(Debug, Clone, Copy, PartialEq, Eq, Structural)]
pub struct FragmentResult {
    pub id: U8Data,
    pub resolution: Resolution,
    pub range: Range,
    pub pixels: U8Data,
}

/// A computed tile on its way to the display: one iteration measure per pixel
/// in row-major order, as a fraction of `T_ONE`, and the producing worker.
#[derive(Debug, Clone)]
pub struct RenderingData {
    pub result: FragmentResult,
    pub iterations: Vec<u32>,
    pub worker: String,
}

} // verus!
