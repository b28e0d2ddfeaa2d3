//! The colours of directions.

use vstd::prelude::*;

use crate::flow::settings::FlowPalette;
use crate::oracle::{answer2, answered2, lemma_answer2, single_valued2};

verus! {

/// How a palette runs from the angle zero to a full turn. Hues are in degrees,
/// saturations and values in hundredths, greys in thousandths.
#[derive(Clone, Copy, Debug, PartialEq, Eq, Structural)]
pub enum PaletteRamp {
    Hsv { hue: i32, hue_span: i32, saturation: i32, value: i32, value_span: i32 },
    Grey { base: i32, span: i32 },
}

/// How a palette runs.
pub open spec fn ramp_of(palette: FlowPalette) -> PaletteRamp {
    match palette {
        FlowPalette::Rainbow => PaletteRamp::Hsv {
            hue: 0,
            hue_span: 360,
            saturation: 80,
            value: 95,
            value_span: 0,
        },
        FlowPalette::Ocean => PaletteRamp::Hsv {
            hue: 175,
            hue_span: 85,
            saturation: 65,
            value: 45,
            value_span: 50,
        },
        FlowPalette::Fire => PaletteRamp::Hsv {
            hue: 0,
            hue_span: 55,
            saturation: 90,
            value: 55,
            value_span: 45,
        },
        FlowPalette::Forest => PaletteRamp::Hsv {
            hue: 75,
            hue_span: 95,
            saturation: 65,
            value: 45,
            value_span: 50,
        },
        FlowPalette::Mono => PaletteRamp::Grey { base: 200, span: 750 },
    }
}

/// How a palette runs.
pub fn palette_ramp(palette: FlowPalette) -> (ramp: PaletteRamp)
    ensures
        ramp == ramp_of(palette),
{
    match palette {
        FlowPalette::Rainbow => PaletteRamp::Hsv {
            hue: 0,
            hue_span: 360,
            saturation: 80,
            value: 95,
            value_span: 0,
        },
        FlowPalette::Ocean => PaletteRamp::Hsv {
            hue: 175,
            hue_span: 85,
            saturation: 65,
            value: 45,
            value_span: 50,
        },
        FlowPalette::Fire => PaletteRamp::Hsv {
            hue: 0,
            hue_span: 55,
            saturation: 90,
            value: 55,
            value_span: 45,
        },
        FlowPalette::Forest => PaletteRamp::Hsv {
            hue: 75,
            hue_span: 95,
            saturation: 65,
            value: 45,
            value_span: 50,
        },
        FlowPalette::Mono => PaletteRamp::Grey { base: 200, span: 750 },
    }
}

/// No palette leaves the range of colours: at every share of a turn, in
/// `parts`, its saturation and value are between none and all.
pub proof fn law_palettes_are_bounded(palette: FlowPalette, share: int, parts: int)
    requires
        0 <= share <= parts,
        0 < parts,
    ensures
        match ramp_of(palette) {
            PaletteRamp::Hsv { hue: _, hue_span: _, saturation, value, value_span } => {
                &&& 0 <= saturation <= 100
                &&& 0 <= value * parts + value_span * share <= 100 * parts
            },
            PaletteRamp::Grey { base, span } => 0 <= base * parts + span * share <= 1000 * parts,
        },
{
    match ramp_of(palette) {
        PaletteRamp::Hsv { hue: _, hue_span: _, saturation: _, value, value_span } => {
            assert(0 <= value * parts + value_span * share <= 100 * parts) by (nonlinear_arith)
                requires
                    0 <= share <= parts,
                    0 <= value,
                    0 <= value_span,
                    value + value_span <= 100,
            ;
        },
        PaletteRamp::Grey { base, span } => {
            assert(0 <= base * parts + span * share <= 1000 * parts) by (nonlinear_arith)
                requires
                    0 <= share <= parts,
                    0 <= base,
                    0 <= span,
                    base + span <= 1000,
            ;
        },
    }
}

/// The red, green and blue of a hue in one of the six sectors of the circle:
/// `v` is the full part, `p` the least, `q` a falling and `t` a rising one.
pub open spec fn sector_parts<V>(sector: int, v: V, p: V, q: V, t: V) -> (V, V, V) {
    let s = sector % 6;
    if s == 0 {
        (v, t, p)
    } else if s == 1 {
        (q, v, p)
    } else if s == 2 {
        (p, v, t)
    } else if s == 3 {
        (p, q, v)
    } else if s == 4 {
        (t, p, v)
    } else {
        (v, p, q)
    }
}

/// The red, green and blue of a hue in a sector of the circle. Sectors repeat
/// after six in both directions.
pub fn hsv_sector<V>(sector: i32, v: V, p: V, q: V, t: V) -> (rgb: (V, V, V))
    ensures
        rgb == sector_parts(sector as int, v, p, q, t),
{
    let s: i64 = sector as i64;
    let six: i64 = 6;
    let wrapped: i64 = if s >= 0 {
        s % six
    } else {
        5 - (-(s + 1)) % six
    };
    if wrapped == 0 {
        (v, t, p)
    } else if wrapped == 1 {
        (q, v, p)
    } else if wrapped == 2 {
        (p, v, t)
    } else if wrapped == 3 {
        (p, q, v)
    } else if wrapped == 4 {
        (t, p, v)
    } else {
        (v, p, q)
    }
}

/// The entries of a palette's table.
pub const LUT_SIZE: usize = 256;

/// The colours of a palette, for equally spaced angles of a turn.
pub struct FlowPaletteLut<C> {
    pub palette: Option<FlowPalette>,
    pub lut: Vec<C>,
}

impl<C: Copy> FlowPaletteLut<C> {
    /// The table has an entry for each angle.
    pub open spec fn wf(&self) -> bool {
        self.lut.len() == LUT_SIZE
    }

    /// The table holds what `bake` gives for its palette.
    pub open spec fn holds<F: Fn(FlowPalette, usize) -> C>(
        &self,
        palette: FlowPalette,
        bake: F,
    ) -> bool {
        &&& self.palette == Some(palette)
        &&& forall|i: usize| i < LUT_SIZE ==> #[trigger] answered2(bake, palette, i)
        &&& self.lut@ == Seq::new(
            LUT_SIZE as nat,
            |i: int| answer2(bake, palette, i as usize),
        )
    }

    /// A table of no palette.
    pub fn new(blank: C) -> (lut: Self)
        ensures
            lut.wf(),
            lut.palette is None,
            lut.lut@ == Seq::new(LUT_SIZE as nat, |i: int| blank),
    {
        let lut: Vec<C> = crate::fish::water::filled(LUT_SIZE, blank);
        assert(lut@ =~= Seq::new(LUT_SIZE as nat, |i: int| blank));
        FlowPaletteLut { palette: None, lut }
    }

    /// Bake a palette's table, unless it is the one that is there. `bake` gives
    /// the colour of an entry.
    pub fn ensure<F: Fn(FlowPalette, usize) -> C>(&mut self, palette: FlowPalette, bake: &F)
        requires
            old(self).wf(),
            single_valued2(*bake),
            forall|p: FlowPalette, i: usize| bake.requires((p, i)),
        ensures
            final(self).wf(),
            old(self).palette == Some(palette) ==> *final(self) == *old(self),
            old(self).palette != Some(palette) ==> final(self).holds(palette, *bake),
    {
        if self.palette == Some(palette) {
            return;
        }
        let mut i: usize = 0;
        while i < LUT_SIZE
            invariant
                i <= LUT_SIZE,
                self.lut.len() == LUT_SIZE,
                single_valued2(*bake),
                forall|p: FlowPalette, k: usize| bake.requires((p, k)),
                forall|k: int|
                    0 <= k < i ==> #[trigger] self.lut[k] == answer2(*bake, palette, k as usize),
                forall|k: usize| k < i ==> #[trigger] answered2(*bake, palette, k),
            decreases LUT_SIZE - i,
        {
            let colour: C = bake(palette, i);
            proof {
                lemma_answer2(*bake, palette, i, colour);
            }
            self.lut.set(i, colour);
            i += 1;
        }
        self.palette = Some(palette);
        assert(self.lut@ =~= Seq::new(
            LUT_SIZE as nat,
            |k: int| answer2(*bake, palette, k as usize),
        ));
    }

    /// The colour at an entry; angles that round past a full turn have the last
    /// one.
    pub fn linear(&self, index: usize) -> (colour: C)
        requires
            self.wf(),
        ensures
            colour == self.lut[crate::arith::least(index as int, LUT_SIZE - 1)],
    {
        if index < LUT_SIZE - 1 {
            self.lut[index]
        } else {
            self.lut[LUT_SIZE - 1]
        }
    }
}

/// A colour packed into a word, red lowest, then green and blue, with full
/// opacity highest.
pub open spec fn packed_color(r: u8, g: u8, b: u8) -> int {
    r + 0x100 * g + 0x1_0000 * b + 0x100_0000 * 255
}

/// Pack a colour.
pub fn pack_color(r: u8, g: u8, b: u8) -> (word: u32)
    ensures
        word == packed_color(r, g, b),
{
    r as u32 + 0x100 * g as u32 + 0x1_0000 * b as u32 + 0xFF00_0000
}

/// A packed colour unpacks byte by byte, lowest first.
pub proof fn law_packed_colors_unpack(r: u8, g: u8, b: u8)
    ensures
        packed_color(r, g, b) <= u32::MAX,
        packed_color(r, g, b) % 0x100 == r,
        (packed_color(r, g, b) / 0x100) % 0x100 == g,
        (packed_color(r, g, b) / 0x1_0000) % 0x100 == b,
        packed_color(r, g, b) / 0x100_0000 == 255,
{
}

/// The hues run round: each sector ends where the next begins, the sixth where
/// the first does, and the first goes from red towards yellow.
pub proof fn law_hues_run_round<V>(sector: int, v: V, p: V, q: V, t: V)
    ensures
        sector % 2 == 0 ==> sector_parts(sector, v, p, q, v) == sector_parts(
            sector + 1,
            v,
            p,
            v,
            t,
        ),
        sector % 2 == 1 ==> sector_parts(sector, v, p, p, t) == sector_parts(
            sector + 1,
            v,
            p,
            q,
            p,
        ),
        sector_parts(0, v, p, q, t) == (v, t, p),
        sector_parts(sector + 6, v, p, q, t) == sector_parts(sector, v, p, q, t),
{
}

/// In each sector one primary is full, one is lowest and one is on its way, up in
/// an even sector and down in an odd one: red is full around the first sector,
/// green around the third and blue around the fifth.
pub proof fn law_sectors_have_a_full_primary<V>(sector: int, v: V, p: V, q: V, t: V)
    ensures
        ({
            let s = sector % 6;
            let rgb = sector_parts(sector, v, p, q, t);
            let way = if s % 2 == 0 {
                t
            } else {
                q
            };
            &&& s == 5 || s == 0 ==> rgb.0 == v
            &&& s == 1 || s == 2 ==> rgb.1 == v
            &&& s == 3 || s == 4 ==> rgb.2 == v
            &&& s == 2 || s == 3 ==> rgb.0 == p
            &&& s == 4 || s == 5 ==> rgb.1 == p
            &&& s == 0 || s == 1 ==> rgb.2 == p
            &&& s == 1 || s == 4 ==> rgb.0 == way
            &&& s == 0 || s == 3 ==> rgb.1 == way
            &&& s == 2 || s == 5 ==> rgb.2 == way
        }),
{
}

/// Where the palettes begin and end: the rainbow goes once round the hues at one
/// strength; the others keep to a part of them and brighten; the plain one goes
/// from dark to light grey without a hue.
pub proof fn law_palettes_run_between_their_ends(palette: FlowPalette)
    ensures
        match ramp_of(palette) {
            PaletteRamp::Hsv { hue, hue_span, saturation, value, value_span } => {
                let ends = (hue as int, hue + hue_span, value as int, value + value_span);
                match palette {
                    FlowPalette::Rainbow => ends == (0int, 360int, 95int, 95int) && saturation == 80,
                    FlowPalette::Ocean => ends == (175int, 260int, 45int, 95int) && saturation == 65,
                    FlowPalette::Fire => ends == (0int, 55int, 55int, 100int) && saturation == 90,
                    FlowPalette::Forest => ends == (75int, 170int, 45int, 95int) && saturation
                        == 65,
                    FlowPalette::Mono => false,
                }
            },
            PaletteRamp::Grey { base, span } => palette == FlowPalette::Mono && base == 200 && base
                + span == 950,
        },
{
}

} // verus!
