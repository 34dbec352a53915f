//! Pictures as lists of bytes, four for each pixel.

use vstd::prelude::*;

verus! {

/// A quotient rounded to the nearest whole number, to the even one of two that are equally near.
pub open spec fn nearest(n: nat, d: nat) -> nat {
    let (q, r) = (n / d, n % d);
    if 2 * r < d || (2 * r == d && q % 2 == 0) {
        q
    } else {
        q + 1
    }
}

fn round_quotient(n: u128, d: u128) -> (q: u128)
    requires
        0 < d < 0x4000_0000_0000_0000_0000_0000_0000_0000,
        n < 0x4000_0000_0000_0000_0000_0000_0000_0000,
    ensures
        q == nearest(n as nat, d as nat),
        q <= n + 1,
{
    let q: u128 = n / d;
    let r: u128 = n % d;
    assert(q <= n && r < d) by (nonlinear_arith)
        requires
            q == n / d,
            r == n % d,
            d > 0,
    ;
    if 2 * r < d || (2 * r == d && q % 2 == 0) {
        q
    } else {
        q + 1
    }
}

/// The numbers below this one are kept exactly in single precision.
pub const EXACT_BELOW: u128 = 16_777_216;

/// The distance of the neighbours of a number in single precision.
pub open spec fn unit(n: nat) -> nat
    decreases n,
{
    if n < EXACT_BELOW {
        1
    } else {
        2 * unit(n / 2)
    }
}

proof fn lemma_unit(n: nat)
    ensures
        0 < unit(n),
        unit(n) <= n || unit(n) == 1,
    decreases n,
{
    if n >= EXACT_BELOW {
        lemma_unit(n / 2);
    }
}

fn find_unit(n: u128) -> (found: u128)
    requires
        n < 0x2000_0000_0000_0000_0000_0000_0000_0000,
    ensures
        found == unit(n as nat),
        0 < found <= n || found == 1,
    decreases n,
{
    proof {
        lemma_unit(n as nat);
        if n >= EXACT_BELOW {
            lemma_unit((n / 2) as nat);
        }
    }
    if n < EXACT_BELOW {
        1
    } else {
        2 * find_unit(n / 2)
    }
}

/// A whole number in single precision.
pub open spec fn single(n: nat) -> nat {
    nearest(n, unit(n)) * unit(n)
}

/// A whole number in single precision.
pub fn to_single(n: u128) -> (rounded: u128)
    requires
        n < 0x2000_0000_0000_0000_0000_0000_0000_0000,
    ensures
        rounded == single(n as nat),
        rounded <= 2 * n,
{
    let u: u128 = find_unit(n);
    let q: u128 = round_quotient(n, u);
    proof {
        let (nn, uu) = (n as nat, u as nat);
        assert((nn / uu) * uu <= nn) by (nonlinear_arith)
            requires
                uu > 0,
        ;
        assert((nn / uu + 1) * uu == (nn / uu) * uu + uu) by (nonlinear_arith);
        if uu == 1 {
            assert(nn % 1 == 0);
            assert(nn / 1 == nn);
            assert(q * u == q) by (nonlinear_arith)
                requires
                    u == 1,
            ;
        }
        assert(q * u <= 2 * n) by {
            if q == nn / uu {
            } else {
                assert(q == nn / uu + 1);
            }
        }
        assert(0 <= q * u) by (nonlinear_arith);
    }
    q * u
}

/// By what a quotient is multiplied to keep all its digits in single precision.
pub open spec fn scale(a: nat, b: nat) -> nat
    decreases
            (if a >= 8_388_608 * b {
                0
            } else {
                8_388_608 * b - a
            }),
{
    if a == 0 || a >= 8_388_608 * b {
        1
    } else {
        2 * scale(2 * a, b)
    }
}

fn find_scale(a: u128, b: u128) -> (found: u128)
    requires
        0 < a <= 0x1_0000_0000 * 0x1_0000_0000,
        0 < b <= 0x1_0000_0000,
    ensures
        found == scale(a as nat, b as nat),
        0 < found <= 0x1_0000_0000 * 0x1_0000_0000,
        a * found <= 0x1_0000_0000 * 0x1_0000_0000,
        found == 1 || a * found <= 16_777_216 * b,
    decreases
            (if a >= 8_388_608 * b {
                0
            } else {
                8_388_608 * b - a
            }),
{
    if a >= 8_388_608 * b {
        1
    } else {
        let p: u128 = find_scale(2 * a, b);
        assert(a * (2 * p) == (2 * a) * p) by (nonlinear_arith);
        assert(2 * p <= a * (2 * p)) by (nonlinear_arith)
            requires
                a >= 1,
                p > 0,
        ;
        assert((2 * a) * p <= 16_777_216 * b) by {
            if p == 1 {
                assert((2 * a) * p == 2 * a) by (nonlinear_arith)
                    requires
                        p == 1,
                ;
            }
        }
        2 * p
    }
}

/// Where the part `x` of `target` lies in `source`, computed in single precision.
pub open spec fn part_of(x: nat, target: nat, source: nat) -> nat {
    let (a, b) = (single(x), single(target));
    if a == 0 {
        0
    } else {
        let p = scale(a, b);
        single(nearest(a * p, b) * single(source)) / p
    }
}

/// The pixel of a line of `source` pixels that the pixel `x` of a line of `target` pixels shows.
pub open spec fn sample(x: int, target: int, source: int) -> int {
    let part = part_of(x as nat, target as nat, source as nat) as int;
    if part < source {
        part
    } else {
        source - 1
    }
}

/// The pixel of a line of `source` pixels that the pixel `x` of a line of `target` pixels shows.
pub fn find_sample(x: i32, target: i32, source: i32) -> (found: i32)
    requires
        0 <= x < target,
        0 < source,
    ensures
        found == sample(x as int, target as int, source as int),
        0 <= found < source,
{
    let a: u128 = to_single(x as u128);
    let b: u128 = to_single(target as u128);
    let s: u128 = to_single(source as u128);
    proof {
        lemma_single_positive(target as nat);
    }
    if a == 0 {
        return 0;
    }
    let p: u128 = find_scale(a, b);
    let m: u128 = round_quotient(a * p, b);
    assert(m * s < 0x2000_0000_0000_0000_0000_0000_0000_0000) by (nonlinear_arith)
        requires
            0 <= m <= 0x1_0000_0000 * 0x1_0000_0000 + 1,
            0 <= s <= 0x1_0000_0000,
    ;
    assert(0 <= m * s) by (nonlinear_arith);
    let t: u128 = to_single(m * s);
    let part: u128 = t / p;
    if part < source as u128 {
        part as i32
    } else {
        source - 1
    }
}

proof fn lemma_single_positive(n: nat)
    requires
        n > 0,
    ensures
        single(n) > 0,
{
    lemma_unit(n);
    let u = unit(n);
    assert(n / u >= 1) by (nonlinear_arith)
        requires
            0 < u <= n || u == 1,
            n > 0,
    ;
    assert(nearest(n, u) * u > 0) by (nonlinear_arith)
        requires
            nearest(n, u) >= 1,
            u > 0,
    ;
}

/// The position of the first byte of the pixel that a pixel of a scaled picture shows.
pub open spec fn source_index(
    x: int,
    y: int,
    source_width: int,
    source_height: int,
    target_width: int,
    target_height: int,
) -> int {
    4 * (sample(y, target_height, source_height) * source_width + sample(
        x,
        target_width,
        source_width,
    ))
}

/// All pixels that a scaled picture shows are there.
pub open spec fn samples_fit(
    len: int,
    source_width: int,
    source_height: int,
    target_width: int,
    target_height: int,
) -> bool {
    forall|x: int, y: int|
        0 <= x < target_width && 0 <= y < target_height ==> #[trigger] source_index(
            x,
            y,
            source_width,
            source_height,
            target_width,
            target_height,
        ) + 4 <= len
}

/// The picture can be brought to another size.
pub open spec fn is_scalable(
    len: int,
    source_width: int,
    source_height: int,
    target_width: int,
    target_height: int,
) -> bool {
    (source_width == target_width && source_height == target_height) || {
        &&& source_width > 0
        &&& source_height > 0
        &&& samples_fit(len, source_width, source_height, target_width, target_height)
    }
}

/// The bytes of a picture that was brought to another size.
pub open spec fn scaled(
    rgba: Seq<u8>,
    source_width: int,
    source_height: int,
    target_width: int,
    target_height: int,
) -> Seq<u8> {
    if source_width == target_width && source_height == target_height {
        rgba
    } else {
        Seq::new(
            (4 * (target_width * target_height)) as nat,
            |i: int|
                rgba[source_index(
                    (i / 4) % target_width,
                    (i / 4) / target_width,
                    source_width,
                    source_height,
                    target_width,
                    target_height,
                ) + i % 4],
        )
    }
}

proof fn lemma_pixel_position(k: int, y: int, x: int, width: int)
    requires
        k == y * width + x,
        0 <= x < width,
        0 <= y,
    ensures
        k / width == y,
        k % width == x,
{
    vstd::arithmetic::div_mod::lemma_fundamental_div_mod_converse(k, width, y, x);
}

/// Brings a picture to another size. Each pixel of the result shows the pixel of the picture that
/// lies at the same part of its width and height.
pub fn scale_rgba(
    rgba: &Vec<u8>,
    source_width: i32,
    source_height: i32,
    target_width: i32,
    target_height: i32,
) -> (out: Vec<u8>)
    requires
        target_width > 0,
        target_height > 0,
        is_scalable(
            rgba@.len() as int,
            source_width as int,
            source_height as int,
            target_width as int,
            target_height as int,
        ),
    ensures
        out@ == scaled(
            rgba@,
            source_width as int,
            source_height as int,
            target_width as int,
            target_height as int,
        ),
{
    if source_width == target_width && source_height == target_height {
        return rgba.clone();
    }
    let mut out: Vec<u8> = Vec::new();
    let ghost (sw, sh, tw, th) = (
        source_width as int,
        source_height as int,
        target_width as int,
        target_height as int,
    );
    let ghost whole = scaled(rgba@, sw, sh, tw, th);
    assert(0 * tw == 0);
    let mut y: i32 = 0;
    while y < target_height
        invariant
            0 <= y <= target_height,
            target_width > 0,
            source_width > 0,
            source_height > 0,
            sw == source_width,
            sh == source_height,
            tw == target_width,
            th == target_height,
            !(sw == tw && sh == th),
            samples_fit(rgba@.len() as int, sw, sh, tw, th),
            whole == scaled(rgba@, sw, sh, tw, th),
            out@.len() == 4 * (y * tw),
            4 * (y * tw) <= whole.len(),
            forall|i: int| 0 <= i < out@.len() ==> #[trigger] out@[i] == whole[i],
        decreases target_height - y,
    {
        let row: i32 = find_sample(y, target_height, source_height);
        assert(y * tw + tw <= th * tw) by (nonlinear_arith)
            requires
                y + 1 <= th,
                tw > 0,
        ;
        assert(th * tw == tw * th) by (nonlinear_arith);
        let mut x: i32 = 0;
        while x < target_width
            invariant
                0 <= y < target_height,
                0 <= x <= target_width,
                source_width > 0,
                source_height > 0,
                sw == source_width,
                sh == source_height,
                tw == target_width,
                th == target_height,
                !(sw == tw && sh == th),
                samples_fit(rgba@.len() as int, sw, sh, tw, th),
                whole == scaled(rgba@, sw, sh, tw, th),
                whole.len() == 4 * (tw * th),
                y * tw + tw <= tw * th,
                row == sample(y as int, th, sh),
                0 <= row < source_height,
                out@.len() == 4 * (y * tw + x),
                forall|i: int| 0 <= i < out@.len() ==> #[trigger] out@[i] == whole[i],
            decreases target_width - x,
        {
            let column: i32 = find_sample(x, target_width, source_width);
            let ghost index = source_index(x as int, y as int, sw, sh, tw, th);
            assert(row * sw + column < 0x4000_0000_0000_0000) by (nonlinear_arith)
                requires
                    0 <= row < sh,
                    0 <= column < sw,
                    sw <= 0x7fff_ffff,
                    sh <= 0x7fff_ffff,
            ;
            assert(0 <= row * sw) by (nonlinear_arith)
                requires
                    row >= 0,
                    sw > 0,
            ;
            let at: u64 = (row as u64 * source_width as u64 + column as u64) * 4;
            assert(at == index);
            assert(index + 4 <= rgba@.len());
            let first: usize = at as usize;
            assert(index + 4 <= rgba.len());
            assert(first == index);
            let ghost k = y * tw + x;
            proof {
                lemma_pixel_position(k, y as int, x as int, tw);
                assert forall|i: int| 0 <= i < 4 implies #[trigger] whole[4 * k + i] == rgba@[index
                    + i] by {
                    assert((4 * k + i) / 4 == k);
                    assert((4 * k + i) % 4 == i);
                }
            }
            assert(whole[4 * k + 0] == rgba@[index]);
            assert(whole[4 * k + 1] == rgba@[index + 1]);
            assert(whole[4 * k + 2] == rgba@[index + 2]);
            assert(whole[4 * k + 3] == rgba@[index + 3]);
            out.push(rgba[first]);
            out.push(rgba[first + 1]);
            out.push(rgba[first + 2]);
            out.push(rgba[first + 3]);
            x += 1;
        }
        assert((y + 1) * tw == y * tw + tw) by (nonlinear_arith);
        y += 1;
    }
    assert(y * tw == tw * th) by (nonlinear_arith)
        requires
            y == th,
    ;
    assert(out@ =~= whole);
    out
}

/// Whether a picture can be brought to another size.
pub fn can_scale(
    len: usize,
    source_width: i32,
    source_height: i32,
    target_width: i32,
    target_height: i32,
) -> (scalable: bool)
    ensures
        scalable == is_scalable(
            len as int,
            source_width as int,
            source_height as int,
            target_width as int,
            target_height as int,
        ),
{
    if source_width == target_width && source_height == target_height {
        return true;
    }
    if source_width <= 0 || source_height <= 0 {
        return false;
    }
    let ghost (sw, sh, tw, th) = (
        source_width as int,
        source_height as int,
        target_width as int,
        target_height as int,
    );
    let mut y: i32 = 0;
    while y < target_height
        invariant
            0 <= y,
            y <= target_height || target_height < 0,
            source_width > 0,
            source_height > 0,
            sw == source_width,
            sh == source_height,
            tw == target_width,
            th == target_height,
            !(sw == tw && sh == th),
            forall|a: int, b: int|
                0 <= a < tw && 0 <= b < y ==> #[trigger] source_index(a, b, sw, sh, tw, th) + 4
                    <= len,
        decreases target_height - y,
    {
        let row: i32 = find_sample(y, target_height, source_height);
        let mut x: i32 = 0;
        while x < target_width
            invariant
                0 <= y < target_height,
                0 <= x,
                x <= target_width || target_width < 0,
                source_width > 0,
                source_height > 0,
                sw == source_width,
                sh == source_height,
                tw == target_width,
                th == target_height,
                !(sw == tw && sh == th),
                row == sample(y as int, th, sh),
                0 <= row < source_height,
                forall|a: int, b: int|
                    0 <= a < tw && 0 <= b < y ==> #[trigger] source_index(a, b, sw, sh, tw, th) + 4
                        <= len,
                forall|a: int|
                    0 <= a < x ==> #[trigger] source_index(a, y as int, sw, sh, tw, th) + 4 <= len,
            decreases target_width - x,
        {
            let column: i32 = find_sample(x, target_width, source_width);
            assert(row * sw + column < 0x4000_0000_0000_0000) by (nonlinear_arith)
                requires
                    0 <= row < sh,
                    0 <= column < sw,
                    sw <= 0x7fff_ffff,
                    sh <= 0x7fff_ffff,
            ;
            assert(0 <= row * sw) by (nonlinear_arith)
                requires
                    row >= 0,
                    sw > 0,
            ;
            let at: u64 = (row as u64 * source_width as u64 + column as u64) * 4;
            assert(at == source_index(x as int, y as int, sw, sh, tw, th));
            if at as u128 + 4 > len as u128 {
                return false;
            }
            x += 1;
        }
        y += 1;
    }
    true
}

/// Every pixel of a picture that was brought to another size is a pixel of the picture.
pub proof fn law_scaled_pixels_come_from_picture(
    rgba: Seq<u8>,
    source_width: i32,
    source_height: i32,
    target_width: i32,
    target_height: i32,
    k: int,
)
    requires
        target_width > 0,
        target_height > 0,
        source_width > 0,
        source_height > 0,
        rgba.len() == 4 * (source_width * source_height),
        0 <= k < target_width * target_height,
    ensures
        exists|j: int|
            0 <= j < source_width * source_height && scaled(
                rgba,
                source_width as int,
                source_height as int,
                target_width as int,
                target_height as int,
            ).subrange(4 * k, 4 * k + 4) == #[trigger] rgba.subrange(4 * j, 4 * j + 4),
{
    let (sw, sh, tw, th) = (
        source_width as int,
        source_height as int,
        target_width as int,
        target_height as int,
    );
    let whole = scaled(rgba, sw, sh, tw, th);
    if sw == tw && sh == th {
        assert(whole.subrange(4 * k, 4 * k + 4) == rgba.subrange(4 * k, 4 * k + 4));
    } else {
        let (x, y) = (k % tw, k / tw);
        vstd::arithmetic::div_mod::lemma_fundamental_div_mod(k, tw);
        assert(0 <= x < tw && 0 <= y) by (nonlinear_arith)
            requires
                x == k % tw,
                y == k / tw,
                tw > 0,
                k >= 0,
        ;
        let (row, column) = (sample(y, th, sh), sample(x, tw, sw));
        let j = row * sw + column;
        assert(0 <= j < sw * sh) by (nonlinear_arith)
            requires
                j == row * sw + column,
                0 <= row < sh,
                0 <= column < sw,
        ;
        assert(source_index(x, y, sw, sh, tw, th) == 4 * j);
        assert forall|i: int| 0 <= i < 4 implies #[trigger] whole[4 * k + i] == rgba[4 * j + i] by {
            assert((4 * k + i) / 4 == k);
            assert((4 * k + i) % 4 == i);
        }
        assert(whole.subrange(4 * k, 4 * k + 4) =~= rgba.subrange(4 * j, 4 * j + 4));
    }
}

/// A color value in a picture whose colors are multiplied by their opacity.
pub open spec fn premultiplied(value: u8, alpha: u8) -> u8 {
    ((value * alpha) / 255) as u8
}

/// A color value multiplied by an opacity.
pub fn premultiply(value: u8, alpha: u8) -> (out: u8)
    ensures
        out == premultiplied(value, alpha),
{
    assert(0 <= value * alpha <= 255 * 255) by (nonlinear_arith)
        requires
            0 <= value <= 255,
            0 <= alpha <= 255,
    ;
    ((value as u16 * alpha as u16) / 255) as u8
}

/// No color value is above the opacity of its pixel.
pub proof fn law_premultiplied_is_bounded(value: u8, alpha: u8)
    ensures
        premultiplied(value, alpha) <= alpha,
        alpha == 255 ==> premultiplied(value, alpha) == value,
        value == 255 ==> premultiplied(value, alpha) == alpha,
{
    assert(0 <= value * alpha <= 255 * alpha) by (nonlinear_arith)
        requires
            0 <= value <= 255,
            0 <= alpha <= 255,
    ;
    if alpha == 255 {
        assert(value * alpha == 255 * value) by (nonlinear_arith)
            requires
                alpha == 255,
        ;
    }
    if value == 255 {
        assert(value * alpha == 255 * alpha) by (nonlinear_arith)
            requires
                value == 255,
        ;
    }
}

/// The bytes of a picture in the order that the graphics device wants: blue, green, red, opacity,
/// the colors multiplied by the opacity. Bytes that make up no whole pixel are dropped.
pub open spec fn argb8888(rgba: Seq<u8>) -> Seq<u8> {
    Seq::new(
        (4 * (rgba.len() / 4)) as nat,
        |i: int|
            {
                let first = 4 * (i / 4);
                if i % 4 == 3 {
                    rgba[first + 3]
                } else {
                    premultiplied(rgba[first + 2 - i % 4], rgba[first + 3])
                }
            },
    )
}

/// Brings the bytes of a picture into the order that the graphics device wants.
pub fn rgba_to_argb8888(rgba: &Vec<u8>) -> (argb: Vec<u8>)
    ensures
        argb@ == argb8888(rgba@),
{
    let ghost whole = argb8888(rgba@);
    let mut argb: Vec<u8> = Vec::new();
    let length: usize = rgba.len();
    let mut first: usize = 0;
    while length - first >= 4
        invariant
            length == rgba@.len(),
            first <= length,
            first % 4 == 0,
            whole == argb8888(rgba@),
            argb@.len() == first,
            forall|i: int| 0 <= i < first ==> #[trigger] argb@[i] == whole[i],
        decreases length - first,
    {
        let alpha = rgba[first + 3];
        assert forall|i: int| 0 <= i < 4 implies (first + i) / 4 == first as int / 4 && #[trigger] (
        first + i) % 4 == i by {
        }
        assert(whole[first + 0] == premultiplied(rgba@[first + 2], alpha)) by {
            assert((first + 0) % 4 == 0);
        }
        assert(whole[first + 1] == premultiplied(rgba@[first + 1], alpha)) by {
            assert((first + 1) % 4 == 1);
        }
        assert(whole[first + 2] == premultiplied(rgba@[first as int], alpha)) by {
            assert((first + 2) % 4 == 2);
        }
        assert(whole[first + 3] == alpha) by {
            assert((first + 3) % 4 == 3);
        }
        argb.push(premultiply(rgba[first + 2], alpha));
        argb.push(premultiply(rgba[first + 1], alpha));
        argb.push(premultiply(rgba[first], alpha));
        argb.push(alpha);
        first += 4;
    }
    assert(argb@ =~= whole);
    argb
}

/// The colors of a pixel never exceed its opacity, which is kept.
pub proof fn law_argb_keeps_opacity(rgba: Seq<u8>, k: int)
    requires
        0 <= k < rgba.len() / 4,
    ensures
        argb8888(rgba)[4 * k + 3] == rgba[4 * k + 3],
        forall|i: int|
            0 <= i < 3 ==> #[trigger] argb8888(rgba)[4 * k + i] <= rgba[4 * k + 3],
{
    assert((4 * k + 3) / 4 == k && (4 * k + 3) % 4 == 3);
    assert forall|i: int| 0 <= i < 3 implies #[trigger] argb8888(rgba)[4 * k + i] <= rgba[4 * k
        + 3] by {
        assert((4 * k + i) / 4 == k && (4 * k + i) % 4 == i);
        law_premultiplied_is_bounded(rgba[4 * k + 2 - i], rgba[4 * k + 3]);
    }
}

/// A decoded picture. `color` is the number by which a PNG file names how colors are kept.
pub struct Picture {
    pub width: u32,
    pub height: u32,
    pub color: u8,
    pub data: Vec<u8>,
}

impl View for Picture {
    type V = (u32, u32, u8, Seq<u8>);

    open spec fn view(&self) -> (u32, u32, u8, Seq<u8>) {
        (self.width, self.height, self.color, self.data@)
    }
}

/// One value of gray for each pixel.
pub const GRAY: u8 = 0;

/// Red, green and blue for each pixel.
pub const RGB: u8 = 2;

/// Gray and opacity for each pixel.
pub const GRAY_ALPHA: u8 = 4;

/// Red, green, blue and opacity for each pixel.
pub const RGBA: u8 = 6;

/// The bytes of a picture as red, green, blue and opacity for each pixel, unless its colors come
/// from a palette. Bytes that make up no whole pixel are dropped.
pub open spec fn as_rgba(color: u8, data: Seq<u8>) -> Option<Seq<u8>> {
    if color == RGBA {
        Some(data)
    } else if color == RGB {
        Some(
            Seq::new(
                (4 * (data.len() / 3)) as nat,
                |i: int|
                    if i % 4 == 3 {
                        255u8
                    } else {
                        data[3 * (i / 4) + i % 4]
                    },
            ),
        )
    } else if color == GRAY_ALPHA {
        Some(
            Seq::new(
                (4 * (data.len() / 2)) as nat,
                |i: int|
                    if i % 4 == 3 {
                        data[2 * (i / 4) + 1]
                    } else {
                        data[2 * (i / 4)]
                    },
            ),
        )
    } else if color == GRAY {
        Some(
            Seq::new(
                4 * data.len(),
                |i: int|
                    if i % 4 == 3 {
                        255u8
                    } else {
                        data[i / 4]
                    },
            ),
        )
    } else {
        None
    }
}

fn rgb_to_rgba(data: &Vec<u8>) -> (rgba: Vec<u8>)
    ensures
        Some(rgba@) == as_rgba(RGB, data@),
{
    let ghost whole = as_rgba(RGB, data@)->0;
    let mut rgba: Vec<u8> = Vec::new();
    let length: usize = data.len();
    let mut at: usize = 0;
    let ghost mut k: int = 0;
    while length - at >= 3
        invariant
            length == data@.len(),
            at <= length,
            at == 3 * k,
            whole == as_rgba(RGB, data@)->0,
            rgba@.len() == 4 * k,
            forall|i: int| 0 <= i < 4 * k ==> #[trigger] rgba@[i] == whole[i],
        decreases length - at,
    {
        assert((4 * k + 0) / 4 == k && (4 * k + 0) % 4 == 0);
        assert((4 * k + 1) / 4 == k && (4 * k + 1) % 4 == 1);
        assert((4 * k + 2) / 4 == k && (4 * k + 2) % 4 == 2);
        assert((4 * k + 3) / 4 == k && (4 * k + 3) % 4 == 3);
        rgba.push(data[at]);
        rgba.push(data[at + 1]);
        rgba.push(data[at + 2]);
        rgba.push(255);
        at += 3;
        proof {
            k = k + 1;
        }
    }
    assert(rgba@ =~= whole);
    rgba
}

fn gray_alpha_to_rgba(data: &Vec<u8>) -> (rgba: Vec<u8>)
    ensures
        Some(rgba@) == as_rgba(GRAY_ALPHA, data@),
{
    let ghost whole = as_rgba(GRAY_ALPHA, data@)->0;
    let mut rgba: Vec<u8> = Vec::new();
    let length: usize = data.len();
    let mut at: usize = 0;
    let ghost mut k: int = 0;
    while length - at >= 2
        invariant
            length == data@.len(),
            at <= length,
            at == 2 * k,
            whole == as_rgba(GRAY_ALPHA, data@)->0,
            rgba@.len() == 4 * k,
            forall|i: int| 0 <= i < 4 * k ==> #[trigger] rgba@[i] == whole[i],
        decreases length - at,
    {
        assert((4 * k + 0) / 4 == k && (4 * k + 0) % 4 == 0);
        assert((4 * k + 1) / 4 == k && (4 * k + 1) % 4 == 1);
        assert((4 * k + 2) / 4 == k && (4 * k + 2) % 4 == 2);
        assert((4 * k + 3) / 4 == k && (4 * k + 3) % 4 == 3);
        rgba.push(data[at]);
        rgba.push(data[at]);
        rgba.push(data[at]);
        rgba.push(data[at + 1]);
        at += 2;
        proof {
            k = k + 1;
        }
    }
    assert(rgba@ =~= whole);
    rgba
}

fn gray_to_rgba(data: &Vec<u8>) -> (rgba: Vec<u8>)
    ensures
        Some(rgba@) == as_rgba(GRAY, data@),
{
    let ghost whole = as_rgba(GRAY, data@)->0;
    let mut rgba: Vec<u8> = Vec::new();
    let mut k: usize = 0;
    while k < data.len()
        invariant
            k <= data@.len(),
            whole == as_rgba(GRAY, data@)->0,
            rgba@.len() == 4 * k,
            forall|i: int| 0 <= i < 4 * k ==> #[trigger] rgba@[i] == whole[i],
        decreases data@.len() - k,
    {
        assert((4 * k + 0) / 4 == k && (4 * k + 0) % 4 == 0);
        assert((4 * k + 1) / 4 == k && (4 * k + 1) % 4 == 1);
        assert((4 * k + 2) / 4 == k && (4 * k + 2) % 4 == 2);
        assert((4 * k + 3) / 4 == k && (4 * k + 3) % 4 == 3);
        rgba.push(data[k]);
        rgba.push(data[k]);
        rgba.push(data[k]);
        rgba.push(255);
        k += 1;
    }
    assert(rgba@ =~= whole);
    rgba
}

impl Picture {
    /// The picture as red, green, blue and opacity for each pixel, unless its colors come from a
    /// palette.
    pub fn to_rgba(&self) -> (rgba: Option<Vec<u8>>)
        ensures
            match rgba {
                Some(rgba) => as_rgba(self.color, self.data@) == Some(rgba@),
                None => as_rgba(self.color, self.data@) is None,
            },
    {
        if self.color == RGBA {
            Some(self.data.clone())
        } else if self.color == RGB {
            Some(rgb_to_rgba(&self.data))
        } else if self.color == GRAY_ALPHA {
            Some(gray_alpha_to_rgba(&self.data))
        } else if self.color == GRAY {
            Some(gray_to_rgba(&self.data))
        } else {
            None
        }
    }
}

/// A quotient is rounded to the nearest whole number, and to the even one of two that are equally near.
pub proof fn law_quotients_are_rounded_to_nearest(n: nat, d: nat)
    requires
        d > 0,
    ensures
        2 * n <= 2 * (nearest(n, d) * d) + d,
        2 * (nearest(n, d) * d) <= 2 * n + d,
        2 * n == 2 * (nearest(n, d) * d) + d || 2 * (nearest(n, d) * d) == 2 * n + d ==> nearest(n, d)
            % 2 == 0,
{
    let (q, r) = (n / d, n % d);
    assert(n == q * d + r && r < d) by (nonlinear_arith)
        requires
            d > 0,
            q == n / d,
            r == n % d,
    ;
    assert((q + 1) * d == q * d + d) by (nonlinear_arith);
}

/// Numbers below 2^24 are the same in single precision, and a greater number is as near as half of the distance between
/// numbers of its size allows.
pub proof fn law_small_numbers_are_exact(n: nat)
    ensures
        n < 16_777_216 ==> single(n) == n,
        2 * n <= 2 * single(n) + unit(n),
        2 * single(n) <= 2 * n + unit(n),
{
    lemma_unit(n);
    law_quotients_are_rounded_to_nearest(n, unit(n));
    if n < 16_777_216 {
        assert(n / 1 == n && n % 1 == 0);
        assert(nearest(n, 1) == n);
        assert(n * 1 == n);
    }
}

/// A color value in the measure of an opacity is the greatest whole number that is not above that part of it.
pub proof fn law_premultiplied_is_the_part(value: u8, alpha: u8)
    ensures
        255 * premultiplied(value, alpha) <= value * alpha,
        value * alpha < 255 * (premultiplied(value, alpha) + 1),
        premultiplied(value, 0) == 0,
        premultiplied(0, alpha) == 0,
{
    assert(0 <= value * alpha <= 255 * 255) by (nonlinear_arith)
        requires
            0 <= value <= 255,
            0 <= alpha <= 255,
    ;
}

/// The bytes of a pixel stand as the graphics device wants them: blue, green and red, each in the measure of the opacity,
/// and the opacity. A pixel that is not transparent keeps its color.
pub proof fn law_argb_has_its_channels_in_order(rgba: Seq<u8>, k: int)
    requires
        0 <= k < rgba.len() / 4,
    ensures
        argb8888(rgba).len() == 4 * (rgba.len() / 4),
        argb8888(rgba)[4 * k] == premultiplied(rgba[4 * k + 2], rgba[4 * k + 3]),
        argb8888(rgba)[4 * k + 1] == premultiplied(rgba[4 * k + 1], rgba[4 * k + 3]),
        argb8888(rgba)[4 * k + 2] == premultiplied(rgba[4 * k], rgba[4 * k + 3]),
        argb8888(rgba)[4 * k + 3] == rgba[4 * k + 3],
        rgba[4 * k + 3] == 255 ==> argb8888(rgba)[4 * k] == rgba[4 * k + 2] && argb8888(rgba)[4 * k + 1]
            == rgba[4 * k + 1] && argb8888(rgba)[4 * k + 2] == rgba[4 * k],
{
    assert((4 * k) / 4 == k && (4 * k) % 4 == 0);
    assert((4 * k + 1) / 4 == k && (4 * k + 1) % 4 == 1);
    assert((4 * k + 2) / 4 == k && (4 * k + 2) % 4 == 2);
    assert((4 * k + 3) / 4 == k && (4 * k + 3) % 4 == 3);
    law_premultiplied_is_bounded(rgba[4 * k], 255);
    law_premultiplied_is_bounded(rgba[4 * k + 1], 255);
    law_premultiplied_is_bounded(rgba[4 * k + 2], 255);
}

/// Every pixel of a picture without a palette keeps its color and its opacity: gray stands for three equal values, and a
/// picture without opacity is not transparent anywhere. A picture with a palette is not read.
pub proof fn law_pictures_keep_their_colors(data: Seq<u8>, color: u8, k: int)
    requires
        0 <= k,
    ensures
        as_rgba(RGBA, data) == Some(data),
        k < data.len() / 3 ==> as_rgba(RGB, data) is Some && as_rgba(RGB, data)->0.len() == 4 * (
        data.len() / 3) && as_rgba(RGB, data)->0[4 * k] == data[3 * k] && as_rgba(RGB, data)->0[4 * k
            + 1] == data[3 * k + 1] && as_rgba(RGB, data)->0[4 * k + 2] == data[3 * k + 2] && as_rgba(
            RGB,
            data,
        )->0[4 * k + 3] == 255,
        k < data.len() / 2 ==> as_rgba(GRAY_ALPHA, data) is Some && as_rgba(GRAY_ALPHA, data)->0.len()
            == 4 * (data.len() / 2) && as_rgba(GRAY_ALPHA, data)->0[4 * k] == data[2 * k] && as_rgba(
            GRAY_ALPHA,
            data,
        )->0[4 * k + 1] == data[2 * k] && as_rgba(GRAY_ALPHA, data)->0[4 * k + 2] == data[2 * k]
            && as_rgba(GRAY_ALPHA, data)->0[4 * k + 3] == data[2 * k + 1],
        k < data.len() ==> as_rgba(GRAY, data) is Some && as_rgba(GRAY, data)->0.len() == 4
            * data.len() && as_rgba(GRAY, data)->0[4 * k] == data[k] && as_rgba(GRAY, data)->0[4 * k
            + 1] == data[k] && as_rgba(GRAY, data)->0[4 * k + 2] == data[k] && as_rgba(
            GRAY,
            data,
        )->0[4 * k + 3] == 255,
        color != RGBA && color != RGB && color != GRAY_ALPHA && color != GRAY ==> as_rgba(color, data)
            is None,
        RGBA == 6 && RGB == 2 && GRAY_ALPHA == 4 && GRAY == 0,
{
    assert((4 * k) / 4 == k && (4 * k) % 4 == 0);
    assert((4 * k + 1) / 4 == k && (4 * k + 1) % 4 == 1);
    assert((4 * k + 2) / 4 == k && (4 * k + 2) % 4 == 2);
    assert((4 * k + 3) / 4 == k && (4 * k + 3) % 4 == 3);
}

/// A picture of another size shows at each place the whole pixel that the samples of its column and of its row name, and a
/// picture of the same size stays as it is.
pub proof fn law_scaled_pixels_are_the_sampled_ones(
    rgba: Seq<u8>,
    source_width: int,
    source_height: int,
    target_width: int,
    target_height: int,
    x: int,
    y: int,
    channel: int,
)
    requires
        0 <= x < target_width,
        0 <= y < target_height,
        0 <= channel < 4,
    ensures
        scaled(rgba, target_width, target_height, target_width, target_height) == rgba,
        source_width != target_width || source_height != target_height ==> ({
            let out = scaled(rgba, source_width, source_height, target_width, target_height);
            let (column, row) = (
                sample(x, target_width, source_width),
                sample(y, target_height, source_height),
            );
            out.len() == 4 * (target_width * target_height) && out[4 * (y * target_width + x) + channel]
                == rgba[4 * (row * source_width + column) + channel]
        }),
{
    let k = y * target_width + x;
    assert(0 <= k < target_width * target_height) by (nonlinear_arith)
        requires
            0 <= x < target_width,
            0 <= y < target_height,
            k == y * target_width + x,
    ;
    assert((4 * k + channel) / 4 == k && (4 * k + channel) % 4 == channel);
    vstd::arithmetic::div_mod::lemma_fundamental_div_mod_converse(k, target_width, y, x);
}

proof fn lemma_unit_is_small(n: nat)
    ensures
        unit(n) == 1 || 8_388_608 * unit(n) <= n,
    decreases n,
{
    if n >= EXACT_BELOW {
        lemma_unit_is_small(n / 2);
        if unit(n / 2) == 1 {
            assert(unit(n) == 2);
        }
    }
}

proof fn lemma_scale_keeps_digits(a: nat, b: nat)
    requires
        a > 0,
    ensures
        scale(a, b) > 0,
        a * scale(a, b) >= 8_388_608 * b,
    decreases
            (if a >= 8_388_608 * b {
                0
            } else {
                8_388_608 * b - a
            }),
{
    if a < 8_388_608 * b {
        lemma_scale_keeps_digits(2 * a, b);
        let p = scale(2 * a, b);
        assert(a * (2 * p) == (2 * a) * p) by (nonlinear_arith);
    } else {
        assert(a * 1 == a);
    }
}

/// What a pixel of a scaled line shows lies in proportion: the first pixel shows the first one, and any other one shows
/// the pixel at its part of the line, but for rounding, which moves it by less than two pixels back and by no more than
/// one on.
pub proof fn law_samples_lie_in_proportion(x: int, target: int, source: int)
    requires
        0 <= x < target < 16_777_216,
        0 < source <= 4_194_304,
    ensures
        0 <= sample(x, target, source) < source,
        sample(0, target, source) == 0,
        sample(x, target, source) * target <= x * source + target,
        x * source < (sample(x, target, source) + 2) * target,
{
    law_small_numbers_are_exact(x as nat);
    law_small_numbers_are_exact(target as nat);
    law_small_numbers_are_exact(source as nat);
    law_small_numbers_are_exact(0);
    assert(x * source < target * source) by (nonlinear_arith)
        requires
            0 <= x < target,
            0 < source,
    ;
    if x == 0 {
        assert(0 * target == 0 && 0 * source == 0) by (nonlinear_arith);
        assert((sample(x, target, source) + 2) * target > 0) by (nonlinear_arith)
            requires
                sample(x, target, source) == 0,
                target > 0,
        ;
    } else {
        let (a, b, s) = (x, target, source);
        let p = scale(a as nat, b as nat) as int;
        let m = nearest((a * p) as nat, b as nat) as int;
        let n = (m * s) as nat;
        let u = unit(n) as int;
        let t = single(n) as int;
        let part = t / p;
        lemma_scale_keeps_digits(a as nat, b as nat);
        assert(0 <= a * p) by (nonlinear_arith)
            requires
                0 < a,
                0 < p,
        ;
        law_quotients_are_rounded_to_nearest((a * p) as nat, b as nat);
        assert(0 <= m * s) by (nonlinear_arith)
            requires
                0 <= m,
                0 < s,
        ;
        law_small_numbers_are_exact(n);
        lemma_unit_is_small(n);
        lemma_unit(n);
        assert(part_of(x as nat, target as nat, source as nat) == part);
        assert(part * p <= t < (part + 1) * p && 0 <= part) by (nonlinear_arith)
            requires
                part == t / p,
                0 < p,
                0 <= t,
        ;
        assert(p >= 8_388_608) by (nonlinear_arith)
            requires
                a * p >= 8_388_608 * b,
                0 < a < b,
                0 < p,
        ;
        assert(m <= p) by (nonlinear_arith)
            requires
                2 * (m * b) <= 2 * (a * p) + b,
                0 < a < b,
                0 < p,
                0 <= m,
        ;
        assert(m * s <= p * 4_194_304) by (nonlinear_arith)
            requires
                0 <= m <= p,
                0 < s <= 4_194_304,
        ;
        assert(s + u <= p);
        lemma_part_is_near(a, b, s, p, m, u, t, part);
        let found = sample(x, target, source);
        if part >= s {
            assert(found == s - 1);
            assert((s - 1) * b <= part * b) by (nonlinear_arith)
                requires
                    s - 1 <= part,
                    0 < b,
            ;
            assert((s - 1 + 2) * b == s * b + b) by (nonlinear_arith);
            assert(b * s == s * b) by (nonlinear_arith);
        }
    }
}

proof fn lemma_part_is_near(a: int, b: int, s: int, p: int, m: int, u: int, t: int, part: int)
    requires
        0 < a < b,
        0 < s,
        0 < p,
        0 <= m,
        0 < u,
        0 <= part,
        s + u <= p,
        2 * (a * p) <= 2 * (m * b) + b,
        2 * (m * b) <= 2 * (a * p) + b,
        2 * (m * s) <= 2 * t + u,
        2 * t <= 2 * (m * s) + u,
        part * p <= t < (part + 1) * p,
    ensures
        part * b <= a * s + b,
        a * s < (part + 2) * b,
{
    assert(2 * ((part * p) * b) <= 2 * ((m * s) * b) + u * b) by (nonlinear_arith)
        requires
            2 * (part * p) <= 2 * (m * s) + u,
            0 < b,
    ;
    assert((m * s) * b == (m * b) * s) by (nonlinear_arith);
    assert(2 * ((m * b) * s) <= 2 * ((a * p) * s) + b * s) by (nonlinear_arith)
        requires
            2 * (m * b) <= 2 * (a * p) + b,
            0 < s,
    ;
    assert(2 * ((a * p) * s) <= 2 * ((m * b) * s) + b * s) by (nonlinear_arith)
        requires
            2 * (a * p) <= 2 * (m * b) + b,
            0 < s,
    ;
    assert(b * s + u * b <= p * b) by (nonlinear_arith)
        requires
            s + u <= p,
            0 < b,
    ;
    assert((part * p) * b == p * (part * b)) by (nonlinear_arith);
    assert((a * p) * s == p * (a * s)) by (nonlinear_arith);
    assert(p * (2 * (part * b)) <= p * (2 * (a * s) + b)) by {
        assert(p * (2 * (part * b)) == 2 * (p * (part * b))) by (nonlinear_arith);
        assert(p * (2 * (a * s) + b) == 2 * (p * (a * s)) + p * b) by (nonlinear_arith);
    }
    assert(2 * (part * b) <= 2 * (a * s) + b) by (nonlinear_arith)
        requires
            p * (2 * (part * b)) <= p * (2 * (a * s) + b),
            0 < p,
    ;
    assert(2 * ((m * s) * b) <= 2 * (((part + 1) * p) * b) + u * b) by (nonlinear_arith)
        requires
            2 * (m * s) <= 2 * ((part + 1) * p) + u,
            0 < b,
    ;
    assert(((part + 1) * p) * b == p * ((part + 1) * b)) by (nonlinear_arith);
    assert(p * (2 * (a * s)) <= p * (2 * ((part + 1) * b) + b)) by {
        assert(p * (2 * (a * s)) == 2 * (p * (a * s))) by (nonlinear_arith);
        assert(p * (2 * ((part + 1) * b) + b) == 2 * (p * ((part + 1) * b)) + p * b)
            by (nonlinear_arith);
    }
    assert(2 * (a * s) <= 2 * ((part + 1) * b) + b) by (nonlinear_arith)
        requires
            p * (2 * (a * s)) <= p * (2 * ((part + 1) * b) + b),
            0 < p,
    ;
    assert((part + 2) * b == (part + 1) * b + b) by (nonlinear_arith);
}

} // verus!
