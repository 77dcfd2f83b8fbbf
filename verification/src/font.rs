//! Font metrics and text measurement.
//!
//! A font is modeled by its resolved metrics: design units per em,
//! the magnitude of its descent, and per-character glyph metrics
//! (advance and vertical bounds, in design units). Measuring a text
//! run sums the advances, takes the tallest glyph box, and optionally
//! pads the height by the scaled descent. All pixel results are in
//! milli-pixels, scaled by `font_size / units_per_em` with truncation.

use vstd::prelude::*;
use crate::fixed::{sat64, sat_add};
use crate::rect::PxRect;

verus! {

use vstd::string::StrSliceExecFns;

/// Per-character glyph metrics, in font design units.
#[derive(Debug, Clone, Copy, PartialEq, Eq, Structural)]
pub struct GlyphMetrics {
    /// Horizontal advance of the glyph.
    pub advance_x: i64,
    /// Lower edge of the glyph's typographic bounds.
    pub min_y: i64,
    /// Height of the glyph's typographic bounds.
    pub height: i64,
}

/// A font resolved to plain metric values.
#[derive(Debug)]
pub struct Font {
    /// Design units per em square; never zero.
    units_per_em: u32,
    /// Magnitude of the font-wide descent, in design units.
    descent_abs: u32,
    /// Metrics of each character the font maps to a glyph.
    glyphs: Vec<(char, GlyphMetrics)>,
}

/// Mathematical model of a [`Font`].
#[verifier::ext_equal]
pub struct FontModel {
    pub units_per_em: u32,
    pub descent_abs: u32,
    pub glyphs: Map<char, GlyphMetrics>,
}

/// The glyph table an entry sequence denotes.
pub open spec fn glyphs_view(s: Seq<(char, GlyphMetrics)>) -> Map<char, GlyphMetrics>
    decreases s.len(),
{
    if s.len() == 0 {
        Map::<char, GlyphMetrics>::empty()
    } else {
        glyphs_view(s.drop_last()).insert(s.last().0, s.last().1)
    }
}

proof fn lemma_glyphs_view_at(s: Seq<(char, GlyphMetrics)>, i: int)
    requires
        forall|a: int, b: int| 0 <= a < b < s.len() ==> s[a].0 != s[b].0,
        0 <= i < s.len(),
    ensures
        glyphs_view(s).contains_key(s[i].0),
        glyphs_view(s)[s[i].0] == s[i].1,
    decreases s.len(),
{
    if i < s.len() - 1 {
        lemma_glyphs_view_at(s.drop_last(), i);
        assert(s.drop_last()[i] == s[i]);
    }
}

proof fn lemma_glyphs_view_absent(s: Seq<(char, GlyphMetrics)>, c: char)
    requires
        forall|i: int| 0 <= i < s.len() ==> s[i].0 != c,
    ensures
        !glyphs_view(s).contains_key(c),
    decreases s.len(),
{
    if s.len() > 0 {
        lemma_glyphs_view_absent(s.drop_last(), c);
        assert(s.last() == s[s.len() - 1]);
    }
}

impl View for Font {
    type V = FontModel;

    closed spec fn view(&self) -> FontModel {
        FontModel {
            units_per_em: self.units_per_em,
            descent_abs: self.descent_abs,
            glyphs: glyphs_view(self.glyphs@),
        }
    }
}

/// A design-unit value scaled to milli-pixels at the given size:
/// `value * font_size / units_per_em`, truncating toward zero, the
/// magnitude saturating at `i64::MAX`.
pub open spec fn spec_scale(value: int, font_size: int, upem: int) -> int {
    let mag = ((if value >= 0 {
        value
    } else {
        -value
    }) * font_size) / upem;
    let m = if mag > i64::MAX {
        i64::MAX as int
    } else {
        mag
    };
    if value >= 0 {
        m
    } else {
        -m
    }
}

/// Scales a design-unit value to milli-pixels; see [`spec_scale`].
fn scale_units(value: i64, font_size: i64, upem: u32) -> (r: i64)
    requires
        upem > 0,
        font_size >= 0,
    ensures
        r == spec_scale(value as int, font_size as int, upem as int),
{
    let magnitude: u128 = if value >= 0 {
        value as u128
    } else {
        (-(value as i128)) as u128
    };
    proof {
        assert(magnitude <= 0x8000_0000_0000_0000u128);
        assert(magnitude * (font_size as u128) <= 0x8000_0000_0000_0000u128
            * 0x8000_0000_0000_0000u128) by (nonlinear_arith)
            requires
                magnitude <= 0x8000_0000_0000_0000u128,
                0 <= (font_size as u128) <= 0x8000_0000_0000_0000u128,
        ;
    }
    let q: u128 = magnitude * (font_size as u128) / (upem as u128);
    let m: i64 = if q > (i64::MAX as u128) {
        i64::MAX
    } else {
        q as i64
    };
    if value >= 0 {
        m
    } else {
        -m
    }
}

/// The box of one character at the given size: the glyph's scaled
/// advance and vertical bounds, or the zero box for a character the
/// font does not map.
pub open spec fn spec_char_box(f: FontModel, character: char, font_size: int) -> PxRect {
    if f.glyphs.contains_key(character) {
        let g = f.glyphs[character];
        PxRect {
            x: 0,
            y: spec_scale(g.min_y as int, font_size, f.units_per_em as int) as i64,
            width: spec_scale(g.advance_x as int, font_size, f.units_per_em as int) as i64,
            height: spec_scale(g.height as int, font_size, f.units_per_em as int) as i64,
        }
    } else {
        PxRect { x: 0, y: 0, width: 0, height: 0 }
    }
}

/// The running measurement of the first `n` characters of a text: the
/// saturating sum of advances, the tallest glyph height, and the
/// lowest glyph bottom.
pub open spec fn spec_text_run(f: FontModel, chars: Seq<char>, font_size: int, n: int) -> (
    int,
    int,
    int,
)
    decreases n,
{
    if n <= 0 {
        (0, 0, 0)
    } else {
        let (w, h, my) = spec_text_run(f, chars, font_size, n - 1);
        let b = spec_char_box(f, chars[n - 1], font_size);
        (
            sat64(w + b.width),
            if b.height > h {
                b.height as int
            } else {
                h
            },
            if b.y < my {
                b.y as int
            } else {
                my
            },
        )
    }
}

/// The bounding box of a whole text run: width and height from the
/// run, the height optionally padded by the scaled descent, and `y`
/// reporting the magnitude of the lowest glyph bottom.
pub open spec fn spec_text_bounding_box(
    f: FontModel,
    chars: Seq<char>,
    font_size: int,
    include_max_descent: bool,
) -> PxRect {
    let (w, h, my) = spec_text_run(f, chars, font_size, chars.len() as int);
    let hh = if include_max_descent {
        sat64(h + spec_scale(f.descent_abs as int, font_size, f.units_per_em as int))
    } else {
        h
    };
    PxRect {
        x: 0,
        y: (if my >= 0 {
            my
        } else {
            -my
        }) as i64,
        width: w as i64,
        height: hh as i64,
    }
}

impl Font {
    /// The em square is never empty and each character maps to at
    /// most one glyph. Every font value keeps this invariant.
    #[verifier::type_invariant]
    pub closed spec fn wf(&self) -> bool {
        self.units_per_em > 0 && (forall|a: int, b: int|
            0 <= a < b < self.glyphs@.len() ==> self.glyphs@[a].0 != self.glyphs@[b].0)
    }

    /// A font from its resolved metric values; each character may
    /// appear in the glyph table at most once.
    pub fn from_metrics(units_per_em: u32, descent_abs: u32, glyph_entries: Vec<
        (char, GlyphMetrics),
    >) -> (f: Font)
        requires
            units_per_em > 0,
            forall|a: int, b: int|
                0 <= a < b < glyph_entries@.len() ==> glyph_entries@[a].0 != glyph_entries@[b].0,
        ensures
            f.wf(),
            f@.units_per_em == units_per_em,
            f@.descent_abs == descent_abs,
            forall|i: int|
                0 <= i < glyph_entries@.len() ==> f@.glyphs.contains_key(
                    #[trigger] glyph_entries@[i].0,
                ) && f@.glyphs[glyph_entries@[i].0] == glyph_entries@[i].1,
            forall|c: char|
                f@.glyphs.contains_key(c) ==> exists|i: int|
                    0 <= i < glyph_entries@.len() && glyph_entries@[i].0 == c,
    {
        let f = Font {
            units_per_em: units_per_em,
            descent_abs: descent_abs,
            glyphs: glyph_entries,
        };
        proof {
            assert forall|i: int| 0 <= i < f.glyphs@.len() implies f@.glyphs.contains_key(
                #[trigger] f.glyphs@[i].0,
            ) && f@.glyphs[f.glyphs@[i].0] == f.glyphs@[i].1 by {
                lemma_glyphs_view_at(f.glyphs@, i);
            }
            assert forall|c: char| f@.glyphs.contains_key(c) implies exists|i: int|
                0 <= i < f.glyphs@.len() && f.glyphs@[i].0 == c by {
                if forall|i: int| 0 <= i < f.glyphs@.len() ==> (#[trigger] f.glyphs@[i].0) != c {
                    lemma_glyphs_view_absent(f.glyphs@, c);
                }
            }
        }
        f
    }

    /// Measures one character; see [`spec_char_box`].
    pub fn get_character_bounding_box(&self, character: char, font_size: i64) -> (r: PxRect)
        requires
            font_size >= 0,
        ensures
            r == spec_char_box(self@, character, font_size as int),
    {
        proof {
            use_type_invariant(self);
        }
        let mut i: usize = 0;
        let n = self.glyphs.len();
        while i < n
            invariant
                self.wf(),
                font_size >= 0,
                n == self.glyphs@.len(),
                i <= n,
                forall|j: int| 0 <= j < i ==> self.glyphs@[j].0 != character,
            decreases n - i,
        {
            if self.glyphs[i].0 == character {
                let g = self.glyphs[i].1;
                proof {
                    lemma_glyphs_view_at(self.glyphs@, i as int);
                }
                return PxRect {
                    x: 0,
                    y: scale_units(g.min_y, font_size, self.units_per_em),
                    width: scale_units(g.advance_x, font_size, self.units_per_em),
                    height: scale_units(g.height, font_size, self.units_per_em),
                };
            }
            i += 1;
        }
        proof {
            lemma_glyphs_view_absent(self.glyphs@, character);
        }
        PxRect { x: 0, y: 0, width: 0, height: 0 }
    }

    /// Measures a whole text run; see [`spec_text_bounding_box`].
    pub fn get_text_bounding_box(&self, text: &String, font_size: i64, include_max_descent: bool) -> (r: PxRect)
        requires
            font_size >= 0,
        ensures
            r == spec_text_bounding_box(self@, text@, font_size as int, include_max_descent),
    {
        proof {
            use_type_invariant(self);
        }
        let mut width: i64 = 0;
        let mut height: i64 = 0;
        let mut min_y: i64 = 0;
        let s = text.as_str();
        let n = s.unicode_len();
        let mut i: usize = 0;
        while i < n
            invariant
                self.wf(),
                font_size >= 0,
                s@ == text@,
                n == s@.len(),
                i <= n,
                (width as int, height as int, min_y as int) == spec_text_run(
                    self@,
                    text@,
                    font_size as int,
                    i as int,
                ),
            decreases n - i,
        {
            let ch = s.get_char(i);
            let char_bounds = self.get_character_bounding_box(ch, font_size);
            width = sat_add(width, char_bounds.width);
            if char_bounds.height > height {
                height = char_bounds.height;
            }
            if char_bounds.y < min_y {
                min_y = char_bounds.y;
            }
            i += 1;
        }
        let final_height: i64 = if include_max_descent {
            let descent_px = scale_units(self.descent_abs as i64, font_size, self.units_per_em);
            proof {
                assert(self.descent_abs as i64 >= 0);
            }
            sat_add(height, descent_px)
        } else {
            height
        };
        let y_abs: i64 = if min_y >= 0 {
            min_y
        } else {
            proof {
                lemma_text_run_min_bound(self@, text@, font_size as int, n as int);
            }
            -min_y
        };
        PxRect { x: 0, y: y_abs, width: width, height: final_height }
    }
}

/// The scaled value of any design-unit quantity stays within the
/// saturating range.
proof fn lemma_scale_bounds(value: int, font_size: int, upem: int)
    requires
        font_size >= 0,
        upem > 0,
    ensures
        -(i64::MAX as int) <= spec_scale(value, font_size, upem) <= i64::MAX,
{
    let a = if value >= 0 {
        value
    } else {
        -value
    };
    assert(a * font_size >= 0) by (nonlinear_arith)
        requires
            a >= 0,
            font_size >= 0,
    ;
    assert((a * font_size) / upem >= 0);
}

/// The lowest glyph bottom of a run stays above the saturation floor,
/// so its magnitude always fits.
proof fn lemma_text_run_min_bound(f: FontModel, chars: Seq<char>, font_size: int, n: int)
    requires
        font_size >= 0,
        f.units_per_em > 0,
    ensures
        spec_text_run(f, chars, font_size, n).2 >= -i64::MAX,
    decreases n,
{
    if n > 0 {
        lemma_text_run_min_bound(f, chars, font_size, n - 1);
        if f.glyphs.contains_key(chars[n - 1]) {
            lemma_scale_bounds(f.glyphs[chars[n - 1]].min_y as int, font_size, f.units_per_em
                as int);
        }
    }
}

} // verus!
