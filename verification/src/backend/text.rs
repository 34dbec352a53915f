//! Labels of decorations.

use crate::backend::pixels::{premultiply, to_single};
use crate::geometry::LogicalRect;
use crate::strings::same_text;
use vstd::prelude::*;

verus! {

/// A color with its opacity.
#[derive(Clone, Copy, Debug, PartialEq, Eq, Structural)]
pub struct Color {
    pub r: u8,
    pub g: u8,
    pub b: u8,
    pub a: u8,
}

/// The weight of letters as a configuration gives it.
#[derive(Clone, Debug)]
pub enum FontWeight {
    /// A number, if it is a whole one that is not negative.
    Number(Option<u64>),
    Text(String),
    Other,
}

/// A label that is to be drawn.
#[derive(Clone, Debug)]
pub struct LabelSpec {
    pub rect: LogicalRect,
    pub text: String,
    pub color: Color,
    pub font_size: i32,
    pub font_weight: Option<FontWeight>,
    pub font_family: Option<Vec<String>>,
    pub text_align: Option<String>,
    pub line_height: Option<i32>,
}

/// A drawn label of a decoration.
#[derive(Clone, Debug)]
pub struct CachedDecorationLabel<B> {
    pub rect: LogicalRect,
    pub text: String,
    pub color: Color,
    pub buffer: B,
}

/// The bytes of a drawn label.
#[derive(Clone, Debug)]
pub struct RenderedLabelPixels {
    pub width: i32,
    pub height: i32,
    pub pixels: Vec<u8>,
}

/// The weight that a configuration asks for. Numbers are cut to 16 bits.
pub open spec fn weight_of(value: Option<FontWeight>) -> u16 {
    match value {
        Some(FontWeight::Number(Some(n))) => (n % 65_536) as u16,
        Some(FontWeight::Text(text)) => if text@ == "medium"@ {
            500
        } else if text@ == "semibold"@ {
            600
        } else if text@ == "bold"@ {
            700
        } else {
            400
        },
        _ => 400,
    }
}

/// The weight that a configuration asks for.
pub fn parse_font_weight(value: &Option<FontWeight>) -> (weight: u16)
    ensures
        weight == weight_of(*value),
{
    match value {
        Some(FontWeight::Number(number)) => match number {
            Some(n) => (*n % 65_536) as u16,
            None => 400,
        },
        Some(FontWeight::Text(text)) => {
            proof {
                reveal_strlit("medium");
                reveal_strlit("semibold");
                reveal_strlit("bold");
            }
            if same_text(text.as_str(), "medium") {
                500
            } else if same_text(text.as_str(), "semibold") {
                600
            } else if same_text(text.as_str(), "bold") {
                700
            } else {
                400
            }
        },
        _ => 400,
    }
}

/// Where a text stands in its label.
#[derive(Clone, Copy, Debug, PartialEq, Eq, Structural)]
pub enum TextAlignment {
    Start,
    Center,
    End,
}

/// How a label is drawn.
#[derive(Clone, Copy, Debug, PartialEq, Eq, Structural)]
pub struct LabelLayout {
    pub weight: u16,
    pub font_size: i32,
    pub line_height: i32,
    pub alignment: TextAlignment,
}

impl LabelSpec {
    /// The label has something to draw and a place for it.
    pub open spec fn is_visible(&self) -> bool {
        self.text@.len() > 0 && self.rect.width > 0 && self.rect.height > 0
    }

    /// The size of the letters, at least one.
    pub open spec fn letter_size(&self) -> int {
        if self.font_size > 1 {
            self.font_size as int
        } else {
            1
        }
    }

    /// The height of a line: the one that is asked for, or a little more than the letters have.
    pub open spec fn line(&self) -> int {
        match self.line_height {
            Some(height) => height as int,
            None => crate::backend::pixels::single(self.letter_size() as nat) as int + 4,
        }
    }

    /// Where the text stands. What is not known means the start.
    pub open spec fn alignment(&self) -> TextAlignment {
        match self.text_align {
            Some(align) => if align@ == "center"@ {
                TextAlignment::Center
            } else if align@ == "end"@ {
                TextAlignment::End
            } else {
                TextAlignment::Start
            },
            None => TextAlignment::Start,
        }
    }

    /// How the label is drawn, if there is anything to draw.
    pub open spec fn planned(&self) -> Option<LabelLayout> {
        if self.is_visible() {
            Some(
                LabelLayout {
                    weight: weight_of(self.font_weight),
                    font_size: self.letter_size() as i32,
                    line_height: self.line() as i32,
                    alignment: self.alignment(),
                },
            )
        } else {
            None
        }
    }

    /// Decides how a label is drawn, if there is anything to draw.
    pub fn layout(&self) -> (layout: Option<LabelLayout>)
        requires
            self.line() <= i32::MAX,
        ensures
            layout == self.planned(),
    {
        if self.text.as_str().is_empty() || self.rect.width <= 0 || self.rect.height <= 0 {
            return None;
        }
        let font_size: i32 = if self.font_size > 1 {
            self.font_size
        } else {
            1
        };
        let line_height: i32 = match self.line_height {
            Some(height) => height,
            None => (to_single(font_size as u128) + 4) as i32,
        };
        let alignment = match &self.text_align {
            Some(align) => {
                proof {
                    reveal_strlit("center");
                    reveal_strlit("end");
                }
                if same_text(align.as_str(), "center") {
                    TextAlignment::Center
                } else if same_text(align.as_str(), "end") {
                    TextAlignment::End
                } else {
                    TextAlignment::Start
                }
            },
            None => TextAlignment::Start,
        };
        Some(
            LabelLayout {
                weight: parse_font_weight(&self.font_weight),
                font_size,
                line_height,
                alignment,
            },
        )
    }
}

/// The picture of one letter: how much of each pixel it covers, and where its corner stands in the
/// label.
pub struct GlyphBitmap {
    pub x: i32,
    pub y: i32,
    pub width: usize,
    pub height: usize,
    pub coverage: Vec<u8>,
}

impl GlyphBitmap {
    /// The picture has all its pixels, and lies where places can be counted.
    pub open spec fn fits(&self) -> bool {
        &&& self.width <= i32::MAX
        &&& self.height <= i32::MAX
        &&& self.width * self.height <= self.coverage@.len()
        &&& self.x + self.width <= i32::MAX
        &&& self.y + self.height <= i32::MAX
    }

    /// How much of a pixel of the label the letter covers.
    pub open spec fn covers(&self, px: int, py: int) -> u8 {
        if self.x <= px < self.x + self.width && self.y <= py < self.y + self.height {
            self.coverage@[(py - self.y) * self.width + (px - self.x)]
        } else {
            0
        }
    }
}

/// The opacity of a pixel that is covered in part: the opacity of the color times the part, rounded
/// to the nearest number.
pub open spec fn covered_alpha(coverage: u8, alpha: u8) -> u8 {
    ((2 * coverage * alpha + 255) / 510) as u8
}

fn cover_alpha(coverage: u8, alpha: u8) -> (out: u8)
    ensures
        out == covered_alpha(coverage, alpha),
{
    assert(0 <= coverage * alpha <= 255 * 255) by (nonlinear_arith)
        requires
            0 <= coverage <= 255,
            0 <= alpha <= 255,
    ;
    assert(2 * coverage * alpha == 2 * (coverage * alpha)) by (nonlinear_arith);
    ((2 * (coverage as u32 * alpha as u32) + 255) / 510) as u8
}

/// A letter covers no more than its color allows, and all of it where it covers a pixel whole.
pub proof fn law_covered_alpha_is_bounded(coverage: u8, alpha: u8)
    ensures
        covered_alpha(coverage, alpha) <= alpha,
        covered_alpha(255, alpha) == alpha,
        covered_alpha(0, alpha) == 0,
{
    assert(2 * coverage * alpha <= 510 * alpha) by (nonlinear_arith)
        requires
            0 <= coverage <= 255,
            0 <= alpha <= 255,
    ;
    assert(0 <= 2 * coverage * alpha) by (nonlinear_arith)
        requires
            0 <= coverage,
            0 <= alpha,
    ;
    assert(2 * 0u8 * alpha == 0) by (nonlinear_arith);
    assert(2 * 255u8 * alpha == 510 * alpha) by (nonlinear_arith);
}

/// The byte `i` of a label after a letter was drawn. Pixels that the letter does not cover stay as
/// they are. The others get the color of the letter, blue before green before red, each multiplied
/// by the opacity; their opacity never sinks.
pub open spec fn byte_after(
    pixels: Seq<u8>,
    width: int,
    glyph: GlyphBitmap,
    color: Color,
    i: int,
) -> u8 {
    let coverage = glyph.covers((i / 4) % width, (i / 4) / width);
    let alpha = covered_alpha(coverage, color.a);
    if coverage == 0 {
        pixels[i]
    } else if i % 4 == 0 {
        crate::backend::pixels::premultiplied(color.b, alpha)
    } else if i % 4 == 1 {
        crate::backend::pixels::premultiplied(color.g, alpha)
    } else if i % 4 == 2 {
        crate::backend::pixels::premultiplied(color.r, alpha)
    } else if alpha >= pixels[i] {
        alpha
    } else {
        pixels[i]
    }
}

/// The label after a letter was drawn.
pub open spec fn with_glyph(pixels: Seq<u8>, width: int, glyph: GlyphBitmap, color: Color) -> Seq<u8> {
    Seq::new(pixels.len(), |i: int| byte_after(pixels, width, glyph, color, i))
}

/// A label without letters.
pub fn blank_label(width: i32, height: i32) -> (pixels: Vec<u8>)
    requires
        width > 0,
        height > 0,
        4 * (width * height) <= i32::MAX,
    ensures
        pixels@.len() == 4 * (width * height),
        forall|i: int| 0 <= i < pixels@.len() ==> #[trigger] pixels@[i] == 0,
{
    assert(0 <= width * height) by (nonlinear_arith)
        requires
            width > 0,
            height > 0,
    ;
    let count: i32 = 4 * (width * height);
    let mut pixels: Vec<u8> = Vec::new();
    let mut i: i32 = 0;
    while i < count
        invariant
            0 <= i <= count,
            count == 4 * (width * height),
            pixels@.len() == i,
            forall|k: int| 0 <= k < pixels@.len() ==> #[trigger] pixels@[k] == 0,
        decreases count - i,
    {
        pixels.push(0);
        i += 1;
    }
    pixels
}

proof fn lemma_pixel_index(width: int, x: int, y: int, i: int)
    requires
        0 <= x < width,
        0 <= y,
        0 <= i < 4,
    ensures
        ((4 * (y * width + x) + i) / 4) % width == x,
        ((4 * (y * width + x) + i) / 4) / width == y,
        (4 * (y * width + x) + i) % 4 == i,
{
    let k = y * width + x;
    assert((4 * k + i) / 4 == k);
    assert((4 * k + i) % 4 == i);
    vstd::arithmetic::div_mod::lemma_fundamental_div_mod_converse(k, width, y, x);
}

/// Draws one pixel of a label.
fn draw_pixel(pixels: &mut Vec<u8>, at: usize, coverage: u8, color: Color)
    requires
        at + 4 <= old(pixels)@.len(),
    ensures
        ({
            let alpha = covered_alpha(coverage, color.a);
            let before = old(pixels)@;
            final(pixels)@ == before.update(
                at as int,
                crate::backend::pixels::premultiplied(color.b, alpha),
            ).update(at + 1, crate::backend::pixels::premultiplied(color.g, alpha)).update(
                at + 2,
                crate::backend::pixels::premultiplied(color.r, alpha),
            ).update(
                at + 3,
                if alpha >= before[at + 3] {
                    alpha
                } else {
                    before[at + 3]
                },
            )
        }),
{
    let alpha: u8 = cover_alpha(coverage, color.a);
    assert(at + 4 <= pixels.len());
    let under: u8 = pixels[at + 3];
    pixels.set(at, premultiply(color.b, alpha));
    pixels.set(at + 1, premultiply(color.g, alpha));
    pixels.set(at + 2, premultiply(color.r, alpha));
    pixels.set(
        at + 3,
        if alpha >= under {
            alpha
        } else {
            under
        },
    );
}

/// The pixels above a line of the letter, and those of that line before a column, were drawn.
spec fn is_partly_drawn(
    pixels: Seq<u8>,
    before: Seq<u8>,
    width: int,
    glyph: GlyphBitmap,
    color: Color,
    row: int,
    column: int,
) -> bool {
    forall|i: int|
        0 <= i < before.len() ==> #[trigger] pixels[i] == ({
            let (px, py) = ((i / 4) % width, (i / 4) / width);
            if py - glyph.y < row || (py - glyph.y == row && px - glyph.x < column) {
                byte_after(before, width, glyph, color, i)
            } else {
                before[i]
            }
        })
}

/// Draws a letter into a label.
pub fn draw_glyph(pixels: &mut Vec<u8>, width: i32, height: i32, glyph: &GlyphBitmap, color: Color)
    requires
        width > 0,
        height > 0,
        4 * (width * height) <= i32::MAX,
        old(pixels)@.len() == 4 * (width * height),
        glyph.fits(),
    ensures
        final(pixels)@ == with_glyph(old(pixels)@, width as int, *glyph, color),
{
    let ghost before = pixels@;
    let ghost w = width as int;
    let mut y: usize = 0;
    assert forall|i: int| 0 <= i < before.len() implies #[trigger] pixels@[i] == ({
        let (px, py) = ((i / 4) % w, (i / 4) / w);
        if py - glyph.y < 0 || (py - glyph.y == 0 && px - glyph.x < 0) {
            byte_after(before, w, *glyph, color, i)
        } else {
            before[i]
        }
    }) by {
    }
    while y < glyph.height
        invariant
            y <= glyph.height,
            glyph.fits(),
            w == width,
            width > 0,
            height > 0,
            4 * (width * height) <= i32::MAX,
            before.len() == 4 * (width * height),
            pixels@.len() == before.len(),
            is_partly_drawn(pixels@, before, w, *glyph, color, y as int, 0),
        decreases glyph.height - y,
    {
        let mut x: usize = 0;
        while x < glyph.width
            invariant
                x <= glyph.width,
                y < glyph.height,
                glyph.fits(),
                w == width,
                width > 0,
                height > 0,
                4 * (width * height) <= i32::MAX,
                before.len() == 4 * (width * height),
                pixels@.len() == before.len(),
                is_partly_drawn(pixels@, before, w, *glyph, color, y as int, x as int),
            decreases glyph.width - x,
        {
            assert(y * glyph.width + x < glyph.width * glyph.height) by (nonlinear_arith)
                requires
                    0 <= y < glyph.height,
                    0 <= x < glyph.width,
            ;
            assert(0 <= y * glyph.width) by (nonlinear_arith)
                requires
                    0 <= y,
                    0 <= glyph.width,
            ;
            assert(y * glyph.width + x < glyph.coverage.len());
            let coverage: u8 = glyph.coverage[y * glyph.width + x];
            let target_x: i32 = glyph.x + x as i32;
            let target_y: i32 = glyph.y + y as i32;
            let ghost drawn = pixels@;
            let inside: bool = target_x >= 0 && target_y >= 0 && target_x < width && target_y
                < height;
            if coverage != 0 && inside {
                assert(target_y * w + target_x < w * height) by (nonlinear_arith)
                    requires
                        0 <= target_y < height,
                        0 <= target_x < w,
                ;
                assert(0 <= target_y * w) by (nonlinear_arith)
                    requires
                        0 <= target_y,
                        0 < w,
                ;
                assert(w * height == width * height);
                let at: i32 = (target_y * width + target_x) * 4;
                draw_pixel(pixels, at as usize, coverage, color);
                proof {
                    let k = target_y * w + target_x;
                    assert(at == 4 * k);
                    lemma_pixel_index(w, target_x as int, target_y as int, 0);
                    lemma_pixel_index(w, target_x as int, target_y as int, 1);
                    lemma_pixel_index(w, target_x as int, target_y as int, 2);
                    lemma_pixel_index(w, target_x as int, target_y as int, 3);
                    assert(glyph.covers(target_x as int, target_y as int) == coverage);
                    assert(drawn[at + 3] == before[at + 3]);
                    assert forall|i: int| 0 <= i < before.len() implies #[trigger] pixels@[i] == ({
                        let (px, py) = ((i / 4) % w, (i / 4) / w);
                        if py - glyph.y < y || (py - glyph.y == y && px - glyph.x < x + 1) {
                            byte_after(before, w, *glyph, color, i)
                        } else {
                            before[i]
                        }
                    }) by {
                        let (px, py) = ((i / 4) % w, (i / 4) / w);
                        assert(drawn[i] == drawn[i]);
                        if at <= i < at + 4 {
                            assert(i == at + 0 || i == at + 1 || i == at + 2 || i == at + 3);
                        } else {
                            assert(pixels@[i] == drawn[i]);
                            if px == target_x && py == target_y {
                                vstd::arithmetic::div_mod::lemma_fundamental_div_mod(i / 4, w);
                                assert(w * py == py * w) by (nonlinear_arith);
                                assert(i / 4 == k);
                                assert(false);
                            }
                        }
                    }
                }
            } else {
                proof {
                    assert forall|i: int| 0 <= i < before.len() implies #[trigger] pixels@[i] == ({
                        let (px, py) = ((i / 4) % w, (i / 4) / w);
                        if py - glyph.y < y || (py - glyph.y == y && px - glyph.x < x + 1) {
                            byte_after(before, w, *glyph, color, i)
                        } else {
                            before[i]
                        }
                    }) by {
                        let (px, py) = ((i / 4) % w, (i / 4) / w);
                        assert(drawn[i] == drawn[i]);
                        if px == target_x && py == target_y {
                            assert(glyph.covers(px, py) == coverage);
                            if coverage != 0 {
                                lemma_inside(i, w, height as int);
                                assert(inside);
                            }
                        }
                    }
                }
            }
            x += 1;
        }
        proof {
            assert forall|i: int| 0 <= i < before.len() implies #[trigger] pixels@[i] == ({
                let (px, py) = ((i / 4) % w, (i / 4) / w);
                if py - glyph.y < y + 1 || (py - glyph.y == y + 1 && px - glyph.x < 0) {
                    byte_after(before, w, *glyph, color, i)
                } else {
                    before[i]
                }
            }) by {
                let (px, py) = ((i / 4) % w, (i / 4) / w);
                if py - glyph.y == y && px - glyph.x >= glyph.width {
                    assert(glyph.covers(px, py) == 0);
                }
                if py - glyph.y == y + 1 && px - glyph.x < 0 {
                    assert(glyph.covers(px, py) == 0);
                }
            }
        }
        y += 1;
    }
    proof {
        assert forall|i: int| 0 <= i < before.len() implies #[trigger] pixels@[i] == with_glyph(
            before,
            w,
            *glyph,
            color,
        )[i] by {
            let (px, py) = ((i / 4) % w, (i / 4) / w);
            if py - glyph.y >= glyph.height {
                assert(glyph.covers(px, py) == 0);
            }
        }
        assert(pixels@ =~= with_glyph(before, w, *glyph, color));
    }
}

proof fn lemma_inside(i: int, w: int, h: int)
    requires
        0 <= i < 4 * (w * h),
        w > 0,
        h > 0,
    ensures
        0 <= (i / 4) % w < w,
        0 <= (i / 4) / w < h,
{
    let k = i / 4;
    assert(0 <= k < w * h);
    assert(0 <= k % w < w && 0 <= k / w < h) by (nonlinear_arith)
        requires
            0 <= k < w * h,
            w > 0,
            h > 0,
    ;
}

/// A pixel that no part of a letter covers stays as it is.
pub proof fn law_glyph_stays_in_its_place(
    pixels: Seq<u8>,
    width: int,
    glyph: GlyphBitmap,
    color: Color,
    i: int,
)
    requires
        0 <= i < pixels.len(),
        glyph.covers((i / 4) % width, (i / 4) / width) == 0,
    ensures
        with_glyph(pixels, width, glyph, color)[i] == pixels[i],
{
}

/// The opacity of a label never sinks while letters are drawn.
pub proof fn law_opacity_never_sinks(
    pixels: Seq<u8>,
    width: int,
    glyph: GlyphBitmap,
    color: Color,
    i: int,
)
    requires
        0 <= i < pixels.len(),
        i % 4 == 3,
    ensures
        with_glyph(pixels, width, glyph, color)[i] >= pixels[i],
{
}

/// The finished label.
pub fn rendered_label(spec: &LabelSpec, pixels: Vec<u8>) -> (label: RenderedLabelPixels)
    ensures
        label.width == spec.rect.width,
        label.height == spec.rect.height,
        label.pixels == pixels,
{
    RenderedLabelPixels { width: spec.rect.width, height: spec.rect.height, pixels }
}

/// A number is the weight itself, a name stands for its weight, heavier names for greater ones, and everything else
/// means the ordinary weight.
pub proof fn law_weights_are_read(n: u64, text: String)
    ensures
        n < 65_536 ==> weight_of(Some(FontWeight::Number(Some(n)))) == n,
        text@ == "medium"@ ==> weight_of(Some(FontWeight::Text(text))) == 500,
        text@ == "semibold"@ ==> weight_of(Some(FontWeight::Text(text))) == 600,
        text@ == "bold"@ ==> weight_of(Some(FontWeight::Text(text))) == 700,
        text@ != "medium"@ && text@ != "semibold"@ && text@ != "bold"@ ==> weight_of(
            Some(FontWeight::Text(text)),
        ) == 400,
        weight_of(None) == 400,
        weight_of(Some(FontWeight::Number(None))) == 400,
        weight_of(Some(FontWeight::Other)) == 400,
{
    reveal_strlit("medium");
    reveal_strlit("semibold");
    reveal_strlit("bold");
    assert("medium"@.len() == 6 && "semibold"@.len() == 8 && "bold"@.len() == 4);
}

/// A label is drawn exactly if it has a text and a place with pixels. Its letters have the size that is asked for, but
/// at least one pixel; its lines have the height that is asked for, or four pixels more than the letters; and its text
/// stands at the start unless the center or the end is asked for.
pub proof fn law_labels_are_laid_out_as_asked(spec: LabelSpec)
    ensures
        spec.is_visible() <==> spec.text@.len() > 0 && !spec.rect.is_void(),
        spec.letter_size() >= 1,
        spec.font_size >= 1 ==> spec.letter_size() == spec.font_size,
        spec.line_height is Some ==> spec.line() == spec.line_height->0,
        spec.line_height is None && spec.font_size < 16_777_216 ==> spec.line()
            == spec.letter_size() + 4,
        spec.alignment() == TextAlignment::Center <==> spec.text_align is Some
            && spec.text_align->0@ == "center"@,
        spec.alignment() == TextAlignment::End <==> spec.text_align is Some && spec.text_align->0@
            == "end"@,
{
    reveal_strlit("center");
    reveal_strlit("end");
    assert("center"@.len() == 6 && "end"@.len() == 3);
    if spec.font_size < 16_777_216 {
        crate::backend::pixels::law_small_numbers_are_exact(spec.letter_size() as nat);
    }
}

/// The opacity of a pixel that is covered in part is the nearest number to that part of the opacity of the color, and
/// a greater part never gives less.
pub proof fn law_covered_alpha_is_nearest(coverage: u8, alpha: u8, more: u8)
    requires
        coverage <= more,
    ensures
        2 * (coverage * alpha) - 255 <= 510 * covered_alpha(coverage, alpha) <= 2 * (coverage * alpha)
            + 255,
        covered_alpha(coverage, alpha) <= covered_alpha(more, alpha),
{
    assert(2 * coverage * alpha == 2 * (coverage * alpha)) by (nonlinear_arith);
    assert(2 * more * alpha == 2 * (more * alpha)) by (nonlinear_arith);
    assert(0 <= coverage * alpha <= more * alpha <= 255 * 255) by (nonlinear_arith)
        requires
            0 <= coverage <= more <= 255,
            0 <= alpha <= 255,
    ;
}

/// A letter that is moved covers the pixels that it covered, moved by the same distance. Its picture is read line by
/// line: the pixels beside each other in a line, and the lines below each other.
pub proof fn law_letters_cover_where_they_stand(
    glyph: GlyphBitmap,
    moved: GlyphBitmap,
    dx: int,
    dy: int,
    px: int,
    py: int,
)
    requires
        moved.x == glyph.x + dx,
        moved.y == glyph.y + dy,
        moved.width == glyph.width,
        moved.height == glyph.height,
        moved.coverage@ == glyph.coverage@,
    ensures
        moved.covers(px + dx, py + dy) == glyph.covers(px, py),
        glyph.width > 0 && glyph.height > 0 ==> glyph.covers(glyph.x as int, glyph.y as int)
            == glyph.coverage@[0],
        0 <= px < glyph.width && glyph.height > 0 ==> glyph.covers(glyph.x + px, glyph.y as int)
            == glyph.coverage@[px],
        0 <= py < glyph.height && glyph.width > 0 ==> glyph.covers(glyph.x as int, glyph.y + py)
            == glyph.coverage@[py * glyph.width],
        px < glyph.x || py < glyph.y || px >= glyph.x + glyph.width || py >= glyph.y + glyph.height
            ==> glyph.covers(px, py) == 0,
{
    assert(0 * glyph.width == 0) by (nonlinear_arith);
}

/// A letter colors each pixel that it covers: blue, green and red as its color has them, each in the measure of the
/// opacity, which is as great as the letter makes it or as it was.
pub proof fn law_letters_color_their_pixels(
    pixels: Seq<u8>,
    width: int,
    glyph: GlyphBitmap,
    color: Color,
    px: int,
    py: int,
)
    requires
        0 <= px < width,
        0 <= py,
        4 * (py * width + px) + 4 <= pixels.len(),
        glyph.covers(px, py) > 0,
    ensures
        ({
            let at = 4 * (py * width + px);
            let out = with_glyph(pixels, width, glyph, color);
            let alpha = covered_alpha(glyph.covers(px, py), color.a);
            &&& out.len() == pixels.len()
            &&& out[at] == crate::backend::pixels::premultiplied(color.b, alpha)
            &&& out[at + 1] == crate::backend::pixels::premultiplied(color.g, alpha)
            &&& out[at + 2] == crate::backend::pixels::premultiplied(color.r, alpha)
            &&& out[at + 3] >= alpha && out[at + 3] >= pixels[at + 3] && (out[at + 3] == alpha || out[at
                + 3] == pixels[at + 3])
            &&& glyph.covers(px, py) == 255 && color.a == 255 ==> out[at] == color.b && out[at + 1]
                == color.g && out[at + 2] == color.r && out[at + 3] == 255
        }),
{
    lemma_pixel_index(width, px, py, 0);
    lemma_pixel_index(width, px, py, 1);
    lemma_pixel_index(width, px, py, 2);
    lemma_pixel_index(width, px, py, 3);
    assert(0 <= py * width) by (nonlinear_arith)
        requires
            0 <= py,
            0 < width,
    ;
    law_covered_alpha_is_bounded(glyph.covers(px, py), color.a);
    crate::backend::pixels::law_premultiplied_is_bounded(color.b, 255);
    crate::backend::pixels::law_premultiplied_is_bounded(color.g, 255);
    crate::backend::pixels::law_premultiplied_is_bounded(color.r, 255);
}

/// The layout of a label is there exactly if the label is visible, and has what the label asks for: its weight, its size, the
/// height of its lines and its place.
pub proof fn law_layouts_have_what_is_asked_for(spec: LabelSpec)
    requires
        i32::MIN <= spec.line() <= i32::MAX,
    ensures
        spec.planned() is Some <==> spec.text@.len() > 0 && !spec.rect.is_void(),
        spec.planned() matches Some(layout) ==> {
            &&& layout.weight == weight_of(spec.font_weight)
            &&& spec.font_size >= 1 ==> layout.font_size == spec.font_size
            &&& layout.font_size >= 1
            &&& spec.line_height is Some ==> layout.line_height == spec.line_height->0
            &&& spec.line_height is None && spec.font_size < 16_777_216 ==> layout.line_height
                == layout.font_size + 4
            &&& layout.alignment == spec.alignment()
        },
{
    law_labels_are_laid_out_as_asked(spec);
}

} // verus!
