//! Pixel work on rendered pages: inverting the colours of an area of an RGB
//! image, three bytes per pixel, rows one after another.
use vstd::prelude::*;

verus! {

/// The smaller of two numbers.
pub open spec fn min_of(a: int, b: int) -> int {
    if a < b {
        a
    } else {
        b
    }
}

/// Pixel (x, y) lies in the area from (`min_x`, `min_y`) up to, not including,
/// (`max_x`, `max_y`), cut to an image `width` by `height`.
pub open spec fn in_area(
    x: int,
    y: int,
    min_x: int,
    max_x: int,
    min_y: int,
    max_y: int,
    width: int,
    height: int,
) -> bool {
    min_x <= x < min_of(max_x, width) && min_y <= y < min_of(max_y, height)
}

/// Where byte `c` of pixel (x, y) stands in an image of the given width.
pub open spec fn byte_index(x: int, y: int, c: int, width: int) -> int {
    3 * (x + y * width) + c
}

/// Byte `i` of an image `width` by `height` belongs to a pixel of the area.
pub open spec fn in_area_byte(
    i: int,
    min_x: int,
    max_x: int,
    min_y: int,
    max_y: int,
    width: int,
    height: int,
) -> bool {
    &&& width > 0
    &&& 0 <= i < 3 * width * height
    &&& in_area((i / 3) % width, (i / 3) / width, min_x, max_x, min_y, max_y, width, height)
}

/// The image with the colours of the area inverted: each byte `b` of its
/// pixels becomes `255 - b`; the other bytes stay.
pub open spec fn inverted_image(
    pixels: Seq<u8>,
    width: int,
    height: int,
    min_x: int,
    max_x: int,
    min_y: int,
    max_y: int,
) -> Seq<u8> {
    Seq::new(
        pixels.len(),
        |i: int|
            if in_area_byte(i, min_x, max_x, min_y, max_y, width, height) {
                (255 - pixels[i]) as u8
            } else {
                pixels[i]
            },
    )
}

/// Each byte of the pixel rows stands for one colour of one pixel.
proof fn lemma_byte_position(i: int, w: int, h: int)
    requires
        w > 0,
        0 <= i < 3 * w * h,
    ensures
        0 <= (i / 3) % w < w,
        0 <= (i / 3) / w < h,
        0 <= i % 3 < 3,
        byte_index((i / 3) % w, (i / 3) / w, i % 3, w) == i,
{
    let p = i / 3;
    let q = p / w;
    let r = p % w;
    assert(i == 3 * p + i % 3 && 0 <= i % 3 < 3);
    vstd::arithmetic::div_mod::lemma_fundamental_div_mod(p, w);
    vstd::arithmetic::div_mod::lemma_mod_bound(p, w);
    assert(p < w * h) by (nonlinear_arith)
        requires
            i == 3 * p + i % 3,
            0 <= i % 3 < 3,
            i < 3 * w * h,
    ;
    assert(0 <= q < h) by (nonlinear_arith)
        requires
            p == w * q + r,
            0 <= r < w,
            0 <= p < w * h,
            w > 0,
    ;
    assert(p == r + q * w) by (nonlinear_arith)
        requires
            p == w * q + r,
    ;
}

proof fn lemma_byte_index_unique(w: int, x: int, y: int, c: int, x0: int, y0: int, c0: int)
    requires
        0 <= x < w,
        0 <= x0 < w,
        0 <= y,
        0 <= y0,
        0 <= c < 3,
        0 <= c0 < 3,
        byte_index(x, y, c, w) == byte_index(x0, y0, c0, w),
    ensures
        x == x0 && y == y0 && c == c0,
{
    assert(c == c0) by (nonlinear_arith)
        requires
            3 * (x + y * w) + c == 3 * (x0 + y0 * w) + c0,
            0 <= c < 3,
            0 <= c0 < 3,
    ;
    assert(y == y0) by (nonlinear_arith)
        requires
            x + y * w == x0 + y0 * w,
            0 <= x < w,
            0 <= x0 < w,
            0 <= y,
            0 <= y0,
    ;
}

proof fn lemma_byte_index_bounds(w: int, h: int, x: int, y: int, c: int)
    requires
        0 <= x < w,
        0 <= y < h,
        0 <= c < 3,
    ensures
        0 <= byte_index(x, y, c, w) < 3 * w * h,
{
    assert(0 <= 3 * (x + y * w) + c < 3 * w * h) by (nonlinear_arith)
        requires
            0 <= x < w,
            0 <= y < h,
            0 <= c < 3,
    ;
}

proof fn lemma_byte_index_monotone(w: int, x: int, y: int, xe: int, ye: int)
    requires
        0 <= x < xe <= w,
        0 <= y < ye,
    ensures
        byte_index(x, y, 2, w) <= byte_index(xe - 1, ye - 1, 2, w),
{
    assert(y * w <= (ye - 1) * w) by (nonlinear_arith)
        requires
            0 <= y <= ye - 1,
            0 <= w,
    ;
}

/// Inverts the colours of the pixels of an area of an RGB image: each of their
/// bytes `b` becomes `255 - b`. The area runs from (`min_x`, `min_y`) up to,
/// not including, (`max_x`, `max_y`), cut to the image.
pub fn invert_area(
    pixels: &mut Vec<u8>,
    width: usize,
    height: usize,
    min_x: usize,
    max_x: usize,
    min_y: usize,
    max_y: usize,
)
    requires
        ({
            let xe = min_of(max_x as int, width as int);
            let ye = min_of(max_y as int, height as int);
            (min_x < xe && min_y < ye) ==> byte_index(xe - 1, ye - 1, 2, width as int) < old(
                pixels,
            )@.len()
        }),
    ensures
        final(pixels)@ == inverted_image(
            old(pixels)@,
            width as int,
            height as int,
            min_x as int,
            max_x as int,
            min_y as int,
            max_y as int,
        ),
{
    let xe = if max_x < width {
        max_x
    } else {
        width
    };
    let ye = if max_y < height {
        max_y
    } else {
        height
    };
    let ghost w = width as int;
    let ghost h = height as int;
    let ghost orig = pixels@;
    let mut y = min_y;
    while y < ye
        invariant
            min_y <= y,
            y <= ye || y == min_y,
            xe as int == min_of(max_x as int, w),
            ye as int == min_of(max_y as int, h),
            w == width,
            h == height,
            pixels@.len() == orig.len(),
            (min_x < xe && min_y < ye) ==> byte_index(xe - 1, ye - 1, 2, w) < orig.len(),
            forall|x: int, yy: int, c: int|
                #![trigger byte_index(x, yy, c, w)]
                0 <= x < w && 0 <= yy < h && 0 <= c < 3 && byte_index(x, yy, c, w) < orig.len()
                    ==> pixels@[byte_index(x, yy, c, w)] == if min_x <= x < xe && min_y <= yy < y {
                    (255 - orig[byte_index(x, yy, c, w)]) as u8
                } else {
                    orig[byte_index(x, yy, c, w)]
                },
            forall|i: int| 3 * w * h <= i < orig.len() ==> #[trigger] pixels@[i] == orig[i],
        decreases ye - y,
    {
        let mut x = min_x;
        while x < xe
            invariant
                min_x <= x,
                x <= xe || x == min_x,
                min_y <= y < ye,
                xe as int == min_of(max_x as int, w),
                ye as int == min_of(max_y as int, h),
                w == width,
                h == height,
                pixels@.len() == orig.len(),
                (min_x < xe && min_y < ye) ==> byte_index(xe - 1, ye - 1, 2, w) < orig.len(),
                forall|xx: int, yy: int, c: int|
                    #![trigger byte_index(xx, yy, c, w)]
                    0 <= xx < w && 0 <= yy < h && 0 <= c < 3 && byte_index(xx, yy, c, w)
                        < orig.len() ==> pixels@[byte_index(xx, yy, c, w)] == if min_x <= xx < xe
                        && (min_y <= yy < y || (yy == y && xx < x)) {
                        (255 - orig[byte_index(xx, yy, c, w)]) as u8
                    } else {
                        orig[byte_index(xx, yy, c, w)]
                    },
                forall|i: int| 3 * w * h <= i < orig.len() ==> #[trigger] pixels@[i] == orig[i],
            decreases xe - x,
        {
            let len = pixels.len();
            proof {
                lemma_byte_index_monotone(w, x as int, y as int, xe as int, ye as int);
                let prod = y * width;
                assert(0 <= prod);
                assert(3 * (x + prod) + 2 < len);
            }
            let p = 3 * (x + y * width);
            let ghost before = pixels@;
            let v0 = pixels[p];
            pixels.set(p, 255 - v0);
            let v1 = pixels[p + 1];
            pixels.set(p + 1, 255 - v1);
            let v2 = pixels[p + 2];
            pixels.set(p + 2, 255 - v2);
            proof {
                assert(p == byte_index(x as int, y as int, 0, w));
                lemma_byte_index_bounds(w, h, x as int, y as int, 0);
                lemma_byte_index_bounds(w, h, x as int, y as int, 2);
                assert forall|xx: int, yy: int, c: int|
                    #![trigger byte_index(xx, yy, c, w)]
                    0 <= xx < w && 0 <= yy < h && 0 <= c < 3 && byte_index(xx, yy, c, w)
                        < orig.len() implies pixels@[byte_index(xx, yy, c, w)] == if min_x <= xx
                        < xe && (min_y <= yy < y || (yy == y && xx < x + 1)) {
                        (255 - orig[byte_index(xx, yy, c, w)]) as u8
                    } else {
                        orig[byte_index(xx, yy, c, w)]
                    } by {
                    let i = byte_index(xx, yy, c, w);
                    if xx == x && yy == y {
                        assert(i == p + c);
                    } else {
                        if i == p || i == p + 1 || i == p + 2 {
                            lemma_byte_index_unique(w, xx, yy, c, x as int, y as int, i - p);
                        }
                    }
                }
                assert forall|i: int| 3 * w * h <= i < orig.len() implies #[trigger] pixels@[i]
                    == orig[i] by {}
            }
            x = x + 1;
        }
        y = y + 1;
    }
    proof {
        let inv = inverted_image(
            orig,
            w,
            h,
            min_x as int,
            max_x as int,
            min_y as int,
            max_y as int,
        );
        assert forall|i: int| 0 <= i < orig.len() implies #[trigger] pixels@[i] == inv[i] by {
            if w > 0 && i < 3 * w * h {
                lemma_byte_position(i, w, h);
                let x = (i / 3) % w;
                let yy = (i / 3) / w;
                let c = i % 3;
                assert(byte_index(x, yy, c, w) == i);
                assert(pixels@[byte_index(x, yy, c, w)] == if min_x <= x < xe && min_y <= yy < y {
                    (255 - orig[byte_index(x, yy, c, w)]) as u8
                } else {
                    orig[byte_index(x, yy, c, w)]
                });
                assert((min_x <= x < xe && min_y <= yy < y) == in_area(
                    x,
                    yy,
                    min_x as int,
                    max_x as int,
                    min_y as int,
                    max_y as int,
                    w,
                    h,
                ));
            } else {
                assert(w == 0 ==> 3 * w * h == 0) by (nonlinear_arith);
                assert(3 * w * h <= i);
                assert(!in_area_byte(i, min_x as int, max_x as int, min_y as int, max_y as int, w, h));
            }
        }
        assert(pixels@ =~= inv);
    }
}

/// Inverting the colours of an area twice gives back the image.
pub proof fn lemma_invert_twice(
    pixels: Seq<u8>,
    width: int,
    height: int,
    min_x: int,
    max_x: int,
    min_y: int,
    max_y: int,
)
    ensures
        inverted_image(
            inverted_image(pixels, width, height, min_x, max_x, min_y, max_y),
            width,
            height,
            min_x,
            max_x,
            min_y,
            max_y,
        ) == pixels,
{
    let once = inverted_image(pixels, width, height, min_x, max_x, min_y, max_y);
    assert(inverted_image(once, width, height, min_x, max_x, min_y, max_y) =~= pixels);
}

} // verus!
