//! Colour palettes that map an iteration measure `t ∈ [0, 1]`, held as a
//! multiple of `1 / T_ONE`, to a colour.

use vstd::prelude::*;

verus! {

/// The fixed-point unit of `t`: `T_ONE` stands for `1.0`.
pub const T_ONE: u32 = 1_000_000;

#[derive(Debug, Clone, Copy, PartialEq, Eq, Structural)]
pub enum ColorPalette {
    Classic,
    Inverted,
    Grayscale,
}

/// The palette in use.
#[derive(Debug, Clone, Copy, PartialEq, Eq, Structural)]
pub struct PaletteHandler {
    pub current_palette: ColorPalette,
}

/// The palette that follows `p` in the cycle Classic, Inverted, Grayscale.
pub open spec fn next_palette(p: ColorPalette) -> ColorPalette {
    match p {
        ColorPalette::Classic => ColorPalette::Inverted,
        ColorPalette::Inverted => ColorPalette::Grayscale,
        ColorPalette::Grayscale => ColorPalette::Classic,
    }
}

/// `t` clamped to `[0, T_ONE]`.
pub open spec fn clamp_t(t: int) -> int {
    if t > T_ONE {
        T_ONE as int
    } else {
        t
    }
}

/// `v` clamped to `[0, 255]`.
pub open spec fn to_channel(v: int) -> u8 {
    if v > 255 {
        255
    } else {
        v as u8
    }
}

pub open spec fn one4() -> int {
    T_ONE as int * T_ONE as int * T_ONE as int * T_ONE as int
}

/// The classic palette: `⌊9·(1−t)·t³·255⌋`, `⌊15·(1−t)²·t²·255⌋`,
/// `⌊8.5·(1−t)³·t·255⌋` for `t` clamped to `[0, 1]`, each capped at 255.
pub open spec fn classic(t: int) -> (u8, u8, u8) {
    let a = clamp_t(t);
    let u = T_ONE as int - a;
    (
        to_channel(9 * 255 * u * a * a * a / one4()),
        to_channel(15 * 255 * u * u * a * a / one4()),
        to_channel(17 * 255 * u * u * u * a / (2 * one4())),
    )
}

/// The classic colour with each channel `c` replaced by `255 − c`.
pub open spec fn inverted(t: int) -> (u8, u8, u8) {
    let (r, g, b) = classic(t);
    ((255 - r) as u8, (255 - g) as u8, (255 - b) as u8)
}

/// A grey of level `⌊t·255⌋` for `t` clamped to `[0, 1]`.
pub open spec fn grayscale(t: int) -> (u8, u8, u8) {
    let g = (clamp_t(t) * 255 / T_ONE as int) as u8;
    (g, g, g)
}

/// The colour of `t` under palette `p`.
pub open spec fn color_of(p: ColorPalette, t: int) -> (u8, u8, u8) {
    match p {
        ColorPalette::Classic => classic(t),
        ColorPalette::Inverted => inverted(t),
        ColorPalette::Grayscale => grayscale(t),
    }
}

fn clamp_exec(t: u32) -> (r: u128)
    ensures
        r == clamp_t(t as int),
{
    if t > T_ONE {
        T_ONE as u128
    } else {
        t as u128
    }
}

fn channel_exec(v: u128) -> (r: u8)
    ensures
        r == to_channel(v as int),
{
    if v > 255 {
        255
    } else {
        v as u8
    }
}

impl PaletteHandler {
    /// Starts with the classic palette.
    pub fn new() -> (r: PaletteHandler)
        ensures
            r.current_palette == ColorPalette::Classic,
    {
        PaletteHandler { current_palette: ColorPalette::Classic }
    }

    /// Moves to the next palette of the cycle Classic, Inverted, Grayscale.
    pub fn cycle_palette(&mut self)
        ensures
            final(self).current_palette == next_palette(old(self).current_palette),
    {
        self.current_palette = match self.current_palette {
            ColorPalette::Classic => ColorPalette::Inverted,
            ColorPalette::Inverted => ColorPalette::Grayscale,
            ColorPalette::Grayscale => ColorPalette::Classic,
        };
    }

    /// The colour of `t` under the current palette.
    pub fn calculate_color(&self, t: u32) -> (r: (u8, u8, u8))
        ensures
            r == color_of(self.current_palette, t as int),
    {
        match self.current_palette {
            ColorPalette::Classic => self.classic_palette(t),
            ColorPalette::Inverted => self.inverted_palette(t),
            ColorPalette::Grayscale => self.grayscale_palette(t),
        }
    }

    pub fn classic_palette(&self, t: u32) -> (r: (u8, u8, u8))
        ensures
            r == classic(t as int),
    {
        let a = clamp_exec(t);
        let u = T_ONE as u128 - a;
        let one = T_ONE as u128;
        let one4 = one * one * one * one;
        assert(u * a <= 1_000_000_000_000 && a * a <= 1_000_000_000_000 && u * u
            <= 1_000_000_000_000) by (nonlinear_arith)
            requires
                a <= 1_000_000,
                u <= 1_000_000,
        ;
        assert(u * a * a <= 1_000_000_000_000_000_000 && u * u * a <= 1_000_000_000_000_000_000
            && u * u * u <= 1_000_000_000_000_000_000) by (nonlinear_arith)
            requires
                a <= 1_000_000,
                u <= 1_000_000,
        ;
        assert(u * a * a * a <= 1_000_000_000_000_000_000_000_000 && u * u * a * a
            <= 1_000_000_000_000_000_000_000_000 && u * u * u * a
            <= 1_000_000_000_000_000_000_000_000) by (nonlinear_arith)
            requires
                a <= 1_000_000,
                u <= 1_000_000,
        ;
        let r = channel_exec(9 * 255 * (u * a * a * a) / one4);
        let g = channel_exec(15 * 255 * (u * u * a * a) / one4);
        let b = channel_exec(17 * 255 * (u * u * u * a) / (2 * one4));
        assert(9 * 255 * (u * a * a * a) == 9 * 255 * u * a * a * a) by (nonlinear_arith);
        assert(15 * 255 * (u * u * a * a) == 15 * 255 * u * u * a * a) by (nonlinear_arith);
        assert(17 * 255 * (u * u * u * a) == 17 * 255 * u * u * u * a) by (nonlinear_arith);
        (r, g, b)
    }

    pub fn inverted_palette(&self, t: u32) -> (r: (u8, u8, u8))
        ensures
            r == inverted(t as int),
    {
        let (r, g, b) = self.classic_palette(t);
        (255 - r, 255 - g, 255 - b)
    }

    pub fn grayscale_palette(&self, t: u32) -> (r: (u8, u8, u8))
        ensures
            r == grayscale(t as int),
    {
        let a = clamp_exec(t);
        let g = (a * 255 / T_ONE as u128) as u8;
        (g, g, g)
    }
}

/// Three steps through the cycle of palettes come back to the start.
pub proof fn lemma_palette_cycle(p: ColorPalette)
    ensures
        next_palette(next_palette(next_palette(p))) == p,
{
}

} // verus!
