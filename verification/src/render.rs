//! The frame renderer: a dense premultiplied-alpha pixel canvas, source-over
//! compositing of the glyph rasters the text shaper produces, and the
//! left-to-right cursor that lays the labels out.

use vstd::prelude::*;

verus! {

/// One rectangle of uniform color handed back by the text shaper while
/// rasterizing a label: a coverage-modulated patch of the label's color,
/// positioned relative to the shaping origin.
#[derive(Clone, Copy, Debug, PartialEq, Eq, Structural)]
pub struct GlyphRect {
    pub x: i32,
    pub y: i32,
    pub w: u32,
    pub h: u32,
    pub red: u8,
    pub green: u8,
    pub blue: u8,
    /// Combined alpha: the label's alpha already scaled by the glyph
    /// coverage.  A rectangle with zero alpha is not drawn at all.
    pub alpha: u8,
}

/// The pixel canvas of one frame: `width * height` pixels, four bytes each
/// (blue, green, red, alpha in memory order), premultiplied alpha.
#[derive(Clone, Debug)]
pub struct Canvas {
    pub width: u32,
    pub height: u32,
    pub bytes: Vec<u8>,
}

impl Canvas {
    /// The byte buffer holds exactly four bytes per pixel.
    pub open spec fn wf(self) -> bool {
        self.bytes.len() == self.width * self.height * 4
    }

    /// A zeroed canvas of the given dimensions.
    pub fn new(width: u32, height: u32) -> (c: Canvas)
        requires
            width * height * 4 <= usize::MAX,
        ensures
            c.wf(),
            c.width == width,
            c.height == height,
            c.bytes@ =~= zero_bytes(width as int, height as int),
    {
        let total: usize = (width as usize) * (height as usize) * 4;
        let mut bytes: Vec<u8> = Vec::new();
        while bytes.len() < total
            invariant
                bytes@.len() <= total,
                forall|k: int| 0 <= k < bytes@.len() ==> bytes@[k] == 0u8,
            decreases total - bytes@.len(),
        {
            bytes.push(0u8);
        }
        Canvas { width, height, bytes }
    }
}

/// The contents of a freshly allocated canvas.
pub open spec fn zero_bytes(width: int, height: int) -> Seq<u8> {
    Seq::new((width * height * 4) as nat, |k: int| 0u8)
}

/// A color channel premultiplied by the combined alpha.
pub open spec fn premul(c: u8, a: u8) -> int {
    (c * a) / 255
}

/// The byte stored at offset `m` of a written pixel: blue, green, red in
/// premultiplied form, then the alpha itself.
pub open spec fn rect_byte(m: int, red: u8, green: u8, blue: u8, alpha: u8) -> u8 {
    if m == 0 {
        premul(blue, alpha) as u8
    } else if m == 1 {
        premul(green, alpha) as u8
    } else if m == 2 {
        premul(red, alpha) as u8
    } else {
        alpha
    }
}

/// The row-major pixel index that column `x + i`, row `y + j` falls on.
pub open spec fn pixel_index(x: int, y: int, width: int, i: int, j: int) -> int {
    x + i + (y + j) * width
}

/// Byte `k` belongs to the four bytes of pixel `p`, and that whole pixel
/// lies inside a buffer of `len` bytes.
pub open spec fn in_pixel(k: int, len: int, p: int) -> bool {
    0 <= p && 4 * p <= k < 4 * p + 4 && 4 * p + 4 <= len
}

/// Byte `k` is written when a `w` by `h` rectangle at column `x`, row `y`
/// is composited.  Only whole in-buffer pixels are written; as with the
/// row-major indexing itself, a rectangle wider than the canvas wraps onto
/// the following row.
pub open spec fn covered(k: int, len: int, width: int, x: int, y: int, w: int, h: int) -> bool {
    exists|i: int, j: int|
        0 <= i < w && 0 <= j < h && in_pixel(k, len, #[trigger] pixel_index(x, y, width, i, j))
}

/// The canvas bytes after one rectangle of uniform color is composited:
/// every covered byte holds the premultiplied color, every other byte is
/// unchanged.
pub open spec fn blend(
    bytes: Seq<u8>,
    width: int,
    x: int,
    y: int,
    w: int,
    h: int,
    red: u8,
    green: u8,
    blue: u8,
    alpha: u8,
) -> Seq<u8> {
    Seq::new(
        bytes.len(),
        |k: int|
            if covered(k, bytes.len() as int, width, x, y, w, h) {
                rect_byte(k % 4, red, green, blue, alpha)
            } else {
                bytes[k]
            },
    )
}

/// Like [`covered`], but only by the pixels strictly before column `ii` of
/// row `jj` in the left-to-right, top-to-bottom write order.
spec fn covered_before(
    k: int,
    len: int,
    width: int,
    x: int,
    y: int,
    w: int,
    h: int,
    jj: int,
    ii: int,
) -> bool {
    exists|i: int, j: int|
        0 <= i < w && 0 <= j < h && (j < jj || (j == jj && i < ii)) && in_pixel(
            k,
            len,
            #[trigger] pixel_index(x, y, width, i, j),
        )
}

fn encode(c: u8, a: u8) -> (r: u8)
    ensures
        r == premul(c, a),
{
    proof {
        assert((c as int) * (a as int) <= 255 * 255) by (nonlinear_arith)
            requires
                c <= 255,
                a <= 255,
        ;
    }
    ((c as u16) * (a as u16) / 255) as u8
}

/// Composites one rectangle of uniform premultiplied color onto the
/// canvas, exactly as [`blend`] describes: source channels are scaled by
/// the combined alpha and overwrite the covered pixels.
#[verifier::loop_isolation(false)]
pub fn composite_rect(
    canvas: &mut Canvas,
    x: i64,
    y: i64,
    w: u32,
    h: u32,
    red: u8,
    green: u8,
    blue: u8,
    alpha: u8,
)
    ensures
        final(canvas).width == old(canvas).width,
        final(canvas).height == old(canvas).height,
        final(canvas).bytes@ == blend(
            old(canvas).bytes@,
            old(canvas).width as int,
            x as int,
            y as int,
            w as int,
            h as int,
            red,
            green,
            blue,
            alpha,
        ),
{
    let len = canvas.bytes.len();
    let width = canvas.width;
    let bb = encode(blue, alpha);
    let gb = encode(green, alpha);
    let rb = encode(red, alpha);
    let ghost orig = canvas.bytes@;
    let mut j: u32 = 0;
    while j < h
        invariant
            0 <= j <= h,
            canvas.width == width,
            canvas.height == old(canvas).height,
            canvas.bytes@.len() == len,
            forall|k: int|
                0 <= k < len ==> canvas.bytes@[k] == (if covered_before(
                    k,
                    len as int,
                    width as int,
                    x as int,
                    y as int,
                    w as int,
                    h as int,
                    j as int,
                    0,
                ) {
                    rect_byte(k % 4, red, green, blue, alpha)
                } else {
                    orig[k]
                }),
        decreases h - j,
    {
        let mut i: u32 = 0;
        while i < w
            invariant
                0 <= i <= w,
                j < h,
                canvas.width == width,
                canvas.height == old(canvas).height,
                canvas.bytes@.len() == len,
                forall|k: int|
                    0 <= k < len ==> canvas.bytes@[k] == (if covered_before(
                        k,
                        len as int,
                        width as int,
                        x as int,
                        y as int,
                        w as int,
                        h as int,
                        j as int,
                        i as int,
                    ) {
                        rect_byte(k % 4, red, green, blue, alpha)
                    } else {
                        orig[k]
                    }),
            decreases w - i,
        {
            let yy: i128 = (y as i128) + (j as i128);
            let ww: i128 = width as i128;
            proof {
                assert(-0x1000_0000_0000_0000_0000_0000_0000 <= yy * ww
                    <= 0x1000_0000_0000_0000_0000_0000_0000) by (nonlinear_arith)
                    requires
                        -0x2_0000_0000_0000_0000 <= yy <= 0x2_0000_0000_0000_0000,
                        0 <= ww < 0x1_0000_0000,
                ;
            }
            let p: i128 = (x as i128) + (i as i128) + yy * ww;
            let ghost pre = canvas.bytes@;
            let ghost pint = pixel_index(x as int, y as int, width as int, i as int, j as int);
            proof {
                assert(p == pint);
            }
            if p >= 0 && 4 * p + 4 <= len as i128 {
                let pos: usize = (4 * p) as usize;
                canvas.bytes.set(pos, bb);
                canvas.bytes.set(pos + 1, gb);
                canvas.bytes.set(pos + 2, rb);
                canvas.bytes.set(pos + 3, alpha);
                proof {
                    lemma_covered_step_written(
                        orig,
                        pre,
                        canvas.bytes@,
                        len as int,
                        width as int,
                        x as int,
                        y as int,
                        w as int,
                        h as int,
                        j as int,
                        i as int,
                        red,
                        green,
                        blue,
                        alpha,
                    );
                }
            } else {
                proof {
                    assert forall|k: int| 0 <= k < len implies canvas.bytes@[k] == (
                    if covered_before(
                        k,
                        len as int,
                        width as int,
                        x as int,
                        y as int,
                        w as int,
                        h as int,
                        j as int,
                        i + 1 as int,
                    ) {
                        rect_byte(k % 4, red, green, blue, alpha)
                    } else {
                        orig[k]
                    }) by {
                        lemma_covered_before_grow_skip(
                            k,
                            len as int,
                            width as int,
                            x as int,
                            y as int,
                            w as int,
                            h as int,
                            j as int,
                            i as int,
                        );
                    }
                }
            }
            i = i + 1;
        }
        proof {
            assert forall|k: int| 0 <= k < len implies (covered_before(
                k,
                len as int,
                width as int,
                x as int,
                y as int,
                w as int,
                h as int,
                j + 1 as int,
                0,
            ) == covered_before(
                k,
                len as int,
                width as int,
                x as int,
                y as int,
                w as int,
                h as int,
                j as int,
                w as int,
            )) by {
                lemma_covered_before_row_end(
                    k,
                    len as int,
                    width as int,
                    x as int,
                    y as int,
                    w as int,
                    h as int,
                    j as int,
                );
            }
        }
        j = j + 1;
    }
    proof {
        assert forall|k: int| 0 <= k < len implies (covered_before(
            k,
            len as int,
            width as int,
            x as int,
            y as int,
            w as int,
            h as int,
            h as int,
            0,
        ) == covered(k, len as int, width as int, x as int, y as int, w as int, h as int)) by {
            if covered(k, len as int, width as int, x as int, y as int, w as int, h as int) {
                let (i0, j0) = choose|i0: int, j0: int|
                    0 <= i0 < w && 0 <= j0 < h && in_pixel(
                        k,
                        len as int,
                        #[trigger] pixel_index(x as int, y as int, width as int, i0, j0),
                    );
                assert(covered_before(
                    k,
                    len as int,
                    width as int,
                    x as int,
                    y as int,
                    w as int,
                    h as int,
                    h as int,
                    0,
                ));
            }
            if covered_before(
                k,
                len as int,
                width as int,
                x as int,
                y as int,
                w as int,
                h as int,
                h as int,
                0,
            ) {
                let (i0, j0) = choose|i0: int, j0: int|
                    0 <= i0 < w && 0 <= j0 < h && (j0 < h || (j0 == h && i0 < 0)) && in_pixel(
                        k,
                        len as int,
                        #[trigger] pixel_index(x as int, y as int, width as int, i0, j0),
                    );
                assert(covered(k, len as int, width as int, x as int, y as int, w as int, h as int));
            }
        }
        assert(canvas.bytes@ =~= blend(
            orig,
            width as int,
            x as int,
            y as int,
            w as int,
            h as int,
            red,
            green,
            blue,
            alpha,
        ));
    }
}

/// After the four bytes of the pixel at column `x + ii`, row `y + jj` are
/// written, the canvas matches the write order advanced by one pixel.
proof fn lemma_covered_step_written(
    orig: Seq<u8>,
    pre: Seq<u8>,
    post: Seq<u8>,
    len: int,
    width: int,
    x: int,
    y: int,
    w: int,
    h: int,
    jj: int,
    ii: int,
    red: u8,
    green: u8,
    blue: u8,
    alpha: u8,
)
    requires
        0 <= ii < w,
        0 <= jj < h,
        pre.len() == len,
        post.len() == len,
        in_pixel(4 * pixel_index(x, y, width, ii, jj), len, pixel_index(x, y, width, ii, jj)),
        post =~= pre.update(4 * pixel_index(x, y, width, ii, jj), rect_byte(0, red, green, blue, alpha))
            .update(4 * pixel_index(x, y, width, ii, jj) + 1, rect_byte(1, red, green, blue, alpha))
            .update(4 * pixel_index(x, y, width, ii, jj) + 2, rect_byte(2, red, green, blue, alpha))
            .update(4 * pixel_index(x, y, width, ii, jj) + 3, rect_byte(3, red, green, blue, alpha)),
        forall|k: int|
            0 <= k < len ==> pre[k] == (if covered_before(k, len, width, x, y, w, h, jj, ii) {
                rect_byte(k % 4, red, green, blue, alpha)
            } else {
                orig[k]
            }),
    ensures
        forall|k: int|
            0 <= k < len ==> post[k] == (if covered_before(k, len, width, x, y, w, h, jj, ii + 1) {
                rect_byte(k % 4, red, green, blue, alpha)
            } else {
                orig[k]
            }),
{
    let p = pixel_index(x, y, width, ii, jj);
    assert forall|k: int| 0 <= k < len implies post[k] == (if covered_before(
        k,
        len,
        width,
        x,
        y,
        w,
        h,
        jj,
        ii + 1,
    ) {
        rect_byte(k % 4, red, green, blue, alpha)
    } else {
        orig[k]
    }) by {
        if 4 * p <= k < 4 * p + 4 {
            assert(k / 4 == p) by (nonlinear_arith)
                requires
                    4 * p <= k < 4 * p + 4,
            ;
            assert(k % 4 == k - 4 * p) by (nonlinear_arith)
                requires
                    4 * p <= k < 4 * p + 4,
                    k / 4 == p,
            ;
            assert(post[k] == rect_byte(k % 4, red, green, blue, alpha));
            assert(in_pixel(k, len, pixel_index(x, y, width, ii, jj)));
            assert(covered_before(k, len, width, x, y, w, h, jj, ii + 1));
        } else {
            assert(post[k] == pre[k]);
            if covered_before(k, len, width, x, y, w, h, jj, ii + 1) {
                let (i0, j0) = choose|i0: int, j0: int|
                    0 <= i0 < w && 0 <= j0 < h && (j0 < jj || (j0 == jj && i0 < ii + 1))
                        && in_pixel(k, len, #[trigger] pixel_index(x, y, width, i0, j0));
                if j0 == jj && i0 == ii {
                    assert(false);
                } else {
                    assert(covered_before(k, len, width, x, y, w, h, jj, ii));
                }
            } else {
                assert(!covered_before(k, len, width, x, y, w, h, jj, ii)) by {
                    if covered_before(k, len, width, x, y, w, h, jj, ii) {
                        let (i0, j0) = choose|i0: int, j0: int|
                            0 <= i0 < w && 0 <= j0 < h && (j0 < jj || (j0 == jj && i0 < ii))
                                && in_pixel(k, len, #[trigger] pixel_index(x, y, width, i0, j0));
                        assert(covered_before(k, len, width, x, y, w, h, jj, ii + 1));
                    }
                }
            }
        }
    }
}

/// Skipping an out-of-buffer pixel leaves coverage unchanged.
proof fn lemma_covered_before_grow_skip(
    k: int,
    len: int,
    width: int,
    x: int,
    y: int,
    w: int,
    h: int,
    jj: int,
    ii: int,
)
    requires
        0 <= ii < w,
        0 <= jj < h,
        !in_pixel(4 * pixel_index(x, y, width, ii, jj), len, pixel_index(x, y, width, ii, jj))
            || !(0 <= k < len) || !(4 * pixel_index(x, y, width, ii, jj) <= k < 4 * pixel_index(
            x,
            y,
            width,
            ii,
            jj,
        ) + 4),
    ensures
        covered_before(k, len, width, x, y, w, h, jj, ii + 1) == covered_before(
            k,
            len,
            width,
            x,
            y,
            w,
            h,
            jj,
            ii,
        ),
{
    if covered_before(k, len, width, x, y, w, h, jj, ii + 1) {
        let (i0, j0) = choose|i0: int, j0: int|
            0 <= i0 < w && 0 <= j0 < h && (j0 < jj || (j0 == jj && i0 < ii + 1)) && in_pixel(
                k,
                len,
                #[trigger] pixel_index(x, y, width, i0, j0),
            );
        // The new pixel (ii, jj) cannot be the witness: the skip condition
        // rules it out for this k.
        assert(covered_before(k, len, width, x, y, w, h, jj, ii));
    }
    if covered_before(k, len, width, x, y, w, h, jj, ii) {
        let (i0, j0) = choose|i0: int, j0: int|
            0 <= i0 < w && 0 <= j0 < h && (j0 < jj || (j0 == jj && i0 < ii)) && in_pixel(
                k,
                len,
                #[trigger] pixel_index(x, y, width, i0, j0),
            );
        assert(covered_before(k, len, width, x, y, w, h, jj, ii + 1));
    }
}

/// Coverage up to the end of row `jj` is coverage up to the start of row
/// `jj + 1`.
proof fn lemma_covered_before_row_end(
    k: int,
    len: int,
    width: int,
    x: int,
    y: int,
    w: int,
    h: int,
    jj: int,
)
    ensures
        covered_before(k, len, width, x, y, w, h, jj + 1, 0) == covered_before(
            k,
            len,
            width,
            x,
            y,
            w,
            h,
            jj,
            w,
        ),
{
    if covered_before(k, len, width, x, y, w, h, jj + 1, 0) {
        let (i0, j0) = choose|i0: int, j0: int|
            0 <= i0 < w && 0 <= j0 < h && (j0 < jj + 1 || (j0 == jj + 1 && i0 < 0)) && in_pixel(
                k,
                len,
                #[trigger] pixel_index(x, y, width, i0, j0),
            );
        assert(covered_before(k, len, width, x, y, w, h, jj, w));
    }
    if covered_before(k, len, width, x, y, w, h, jj, w) {
        let (i0, j0) = choose|i0: int, j0: int|
            0 <= i0 < w && 0 <= j0 < h && (j0 < jj || (j0 == jj && i0 < w)) && in_pixel(
                k,
                len,
                #[trigger] pixel_index(x, y, width, i0, j0),
            );
        assert(covered_before(k, len, width, x, y, w, h, jj + 1, 0));
    }
}

/// The canvas bytes after the glyph rectangles of one label are
/// composited in order; rectangles with zero combined alpha are skipped.
pub open spec fn glyph_blend(bytes: Seq<u8>, width: int, cursor: int, glyphs: Seq<GlyphRect>) -> Seq<
    u8,
>
    decreases glyphs.len(),
{
    if glyphs.len() == 0 {
        bytes
    } else {
        let prev = glyph_blend(bytes, width, cursor, glyphs.drop_last());
        let g = glyphs.last();
        if g.alpha == 0 {
            prev
        } else {
            blend(
                prev,
                width,
                cursor + g.x,
                g.y as int,
                g.w as int,
                g.h as int,
                g.red,
                g.green,
                g.blue,
                g.alpha,
            )
        }
    }
}

/// The right-most column composited so far, starting from `fr`; skipped
/// rectangles contribute nothing.
pub open spec fn glyph_cursor(fr: int, cursor: int, glyphs: Seq<GlyphRect>) -> int
    decreases glyphs.len(),
{
    if glyphs.len() == 0 {
        fr
    } else {
        let prev = glyph_cursor(fr, cursor, glyphs.drop_last());
        let g = glyphs.last();
        if g.alpha == 0 {
            prev
        } else if cursor + g.x + g.w > prev {
            cursor + g.x + g.w
        } else {
            prev
        }
    }
}

/// The cursor after one label is drawn: the right-most composited column,
/// or zero when nothing of the label was drawn.
pub open spec fn label_cursor(cursor: int, glyphs: Seq<GlyphRect>) -> int {
    glyph_cursor(0, cursor, glyphs)
}

/// A drawn rectangle pushes the label's cursor at least to its own right
/// edge.
proof fn lemma_glyph_cursor_lower(fr: int, cursor: int, glyphs: Seq<GlyphRect>, n: int)
    requires
        0 <= n < glyphs.len(),
        glyphs[n].alpha > 0,
    ensures
        glyph_cursor(fr, cursor, glyphs) >= cursor + glyphs[n].x + glyphs[n].w,
    decreases glyphs.len(),
{
    if n < glyphs.len() - 1 {
        lemma_glyph_cursor_lower(fr, cursor, glyphs.drop_last(), n);
    }
}

/// A label one of whose rectangles is actually drawn, no further left than
/// the cursor and at least one column wide, advances the cursor strictly.
pub proof fn lemma_label_advances_cursor(cursor: int, glyphs: Seq<GlyphRect>, n: int)
    requires
        0 <= cursor,
        0 <= n < glyphs.len(),
        glyphs[n].alpha > 0,
        glyphs[n].x >= 0,
        glyphs[n].w >= 1,
    ensures
        label_cursor(cursor, glyphs) > cursor,
{
    lemma_glyph_cursor_lower(0, cursor, glyphs, n);
}

/// Draws one label: composites its glyph rectangles at the cursor offset
/// and returns the new cursor, exactly as [`glyph_blend`] and
/// [`label_cursor`] describe.  A rectangle's right edge lies within `2^33`
/// columns of the cursor (its offset fits 32 bits and its width also), so
/// the returned cursor is bounded by that much growth; the cursor bound in
/// the precondition keeps the arithmetic inside 64 bits.
#[verifier::loop_isolation(false)]
pub fn draw_label(canvas: &mut Canvas, cursor: i64, glyphs: &Vec<GlyphRect>) -> (c2: i64)
    requires
        -0x1000_0000_0000_0000 <= cursor <= 0x1000_0000_0000_0000,
    ensures
        final(canvas).width == old(canvas).width,
        final(canvas).height == old(canvas).height,
        final(canvas).bytes@ == glyph_blend(
            old(canvas).bytes@,
            old(canvas).width as int,
            cursor as int,
            glyphs@,
        ),
        c2 == label_cursor(cursor as int, glyphs@),
        0 <= c2,
        c2 <= (if cursor + 0x2_0000_0000 > 0 {
            cursor + 0x2_0000_0000
        } else {
            0
        }),
{
    let ghost orig = canvas.bytes@;
    let mut fr: i64 = 0;
    let n = glyphs.len();
    let mut m: usize = 0;
    while m < n
        invariant
            0 <= m <= n,
            n == glyphs@.len(),
            canvas.width == old(canvas).width,
            canvas.height == old(canvas).height,
            canvas.bytes@ == glyph_blend(orig, old(canvas).width as int, cursor as int, glyphs@.take(m as int)),
            fr == glyph_cursor(0, cursor as int, glyphs@.take(m as int)),
            0 <= fr,
            fr <= (if cursor + 0x2_0000_0000 > 0 {
                cursor + 0x2_0000_0000
            } else {
                0
            }),
        decreases n - m,
    {
        let g = glyphs[m];
        proof {
            assert(glyphs@.take(m + 1).drop_last() =~= glyphs@.take(m as int));
            assert(glyphs@.take(m + 1).last() == g);
        }
        if g.alpha > 0 {
            let nx: i64 = cursor + (g.x as i64);
            let right: i64 = nx + (g.w as i64);
            composite_rect(canvas, nx, g.y as i64, g.w, g.h, g.red, g.green, g.blue, g.alpha);
            if right > fr {
                fr = right;
            }
        }
        m = m + 1;
    }
    proof {
        assert(glyphs@.take(n as int) =~= glyphs@);
    }
    fr
}

/// A shaped drawing instruction: the glyph rasters of one label.
#[derive(Clone, Debug)]
pub struct ShapedLabel {
    pub glyphs: Vec<GlyphRect>,
}

/// One slot of the layout as the renderer sees it: a spacer, or the labels
/// a user widget's draw callback yielded, already shaped.  A callback that
/// failed, or an instruction of an unrecognized shape, contributes no
/// label and must not abort the frame.
#[derive(Clone, Debug)]
pub enum RenderItem {
    Spacer,
    Labels(Vec<ShapedLabel>),
}

/// Canvas bytes and cursor after the labels of one widget are drawn in
/// order.
pub open spec fn labels_fold(
    bytes: Seq<u8>,
    width: int,
    cursor: int,
    labels: Seq<ShapedLabel>,
) -> (Seq<u8>, int)
    decreases labels.len(),
{
    if labels.len() == 0 {
        (bytes, cursor)
    } else {
        let prev = labels_fold(bytes, width, cursor, labels.drop_last());
        (
            glyph_blend(prev.0, width, prev.1, labels.last().glyphs@),
            label_cursor(prev.1, labels.last().glyphs@),
        )
    }
}

/// Canvas bytes and cursor after the whole layout is drawn left to right:
/// a spacer draws nothing and leaves the cursor alone.
pub open spec fn items_fold(
    bytes: Seq<u8>,
    width: int,
    cursor: int,
    items: Seq<RenderItem>,
) -> (Seq<u8>, int)
    decreases items.len(),
{
    if items.len() == 0 {
        (bytes, cursor)
    } else {
        let prev = items_fold(bytes, width, cursor, items.drop_last());
        match items.last() {
            RenderItem::Spacer => prev,
            RenderItem::Labels(ls) => labels_fold(prev.0, width, prev.1, ls@),
        }
    }
}

/// Compositing never changes the byte count of the canvas.
proof fn lemma_glyph_blend_len(bytes: Seq<u8>, width: int, cursor: int, glyphs: Seq<GlyphRect>)
    ensures
        glyph_blend(bytes, width, cursor, glyphs).len() == bytes.len(),
    decreases glyphs.len(),
{
    if glyphs.len() > 0 {
        lemma_glyph_blend_len(bytes, width, cursor, glyphs.drop_last());
    }
}

proof fn lemma_labels_fold_len(bytes: Seq<u8>, width: int, cursor: int, labels: Seq<ShapedLabel>)
    ensures
        labels_fold(bytes, width, cursor, labels).0.len() == bytes.len(),
    decreases labels.len(),
{
    if labels.len() > 0 {
        lemma_labels_fold_len(bytes, width, cursor, labels.drop_last());
        let prev = labels_fold(bytes, width, cursor, labels.drop_last());
        lemma_glyph_blend_len(prev.0, width, prev.1, labels.last().glyphs@);
    }
}

proof fn lemma_items_fold_len(bytes: Seq<u8>, width: int, cursor: int, items: Seq<RenderItem>)
    ensures
        items_fold(bytes, width, cursor, items).0.len() == bytes.len(),
    decreases items.len(),
{
    if items.len() > 0 {
        lemma_items_fold_len(bytes, width, cursor, items.drop_last());
        let prev = items_fold(bytes, width, cursor, items.drop_last());
        match items.last() {
            RenderItem::Spacer => {},
            RenderItem::Labels(ls) => {
                lemma_labels_fold_len(prev.0, width, prev.1, ls@);
            },
        }
    }
}

/// The layout with its spacers removed.
pub open spec fn drop_spacers(items: Seq<RenderItem>) -> Seq<RenderItem>
    decreases items.len(),
{
    if items.len() == 0 {
        items
    } else {
        let rest = drop_spacers(items.drop_last());
        if items.last() is Spacer {
            rest
        } else {
            rest.push(items.last())
        }
    }
}

/// The renderer draws nothing for spacers and leaves the cursor alone:
/// rendering a layout gives exactly the canvas and cursor of rendering the
/// same layout with every spacer removed.
pub proof fn lemma_spacers_ignored(bytes: Seq<u8>, width: int, cursor: int, items: Seq<RenderItem>)
    ensures
        items_fold(bytes, width, cursor, items) == items_fold(
            bytes,
            width,
            cursor,
            drop_spacers(items),
        ),
    decreases items.len(),
{
    if items.len() > 0 {
        lemma_spacers_ignored(bytes, width, cursor, items.drop_last());
        if !(items.last() is Spacer) {
            let ds = drop_spacers(items.drop_last());
            assert(ds.push(items.last()).drop_last() =~= ds);
            assert(ds.push(items.last()).last() == items.last());
        }
    }
}

/// Renders one frame: composites the layout's labels left to right onto a
/// zeroed canvas of `width * height` pixels and returns the canvas
/// together with the final cursor column.
#[verifier::loop_isolation(false)]
pub fn render(width: u32, height: u32, items: &Vec<RenderItem>) -> (r: (Canvas, i64))
    requires
        width * height * 4 <= usize::MAX,
        items@.len() <= 8192,
        forall|n: int|
            0 <= n < items@.len() ==> ((#[trigger] items@[n]) matches RenderItem::Labels(ls)
                ==> ls@.len() <= 8192),
    ensures
        r.0.wf(),
        r.0.width == width,
        r.0.height == height,
        r.0.bytes@ == items_fold(
            zero_bytes(width as int, height as int),
            width as int,
            0,
            items@,
        ).0,
        r.1 == items_fold(zero_bytes(width as int, height as int), width as int, 0, items@).1,
{
    let ghost zb = zero_bytes(width as int, height as int);
    let mut canvas = Canvas::new(width, height);
    let mut cursor: i64 = 0;
    proof {
        assert(canvas.bytes@ == zb);
    }
    let count = items.len();
    let mut n: usize = 0;
    while n < count
        invariant
            0 <= n <= count,
            count == items@.len(),
            canvas.width == width,
            canvas.height == height,
            canvas.bytes@ == items_fold(zb, width as int, 0, items@.take(n as int)).0,
            cursor == items_fold(zb, width as int, 0, items@.take(n as int)).1,
            0 <= cursor,
            cursor <= (n as int) * 0x4000_0000_0000,
        decreases count - n,
    {
        proof {
            assert(items@.take(n + 1).drop_last() =~= items@.take(n as int));
        }
        let item = &items[n];
        match item {
            RenderItem::Spacer => {},
            RenderItem::Labels(ls) => {
                let ghost b0 = canvas.bytes@;
                let ghost c0 = cursor as int;
                let lcount = ls.len();
                proof {
                    assert(ls@.len() <= 8192);
                }
                let mut m: usize = 0;
                while m < lcount
                    invariant
                        0 <= m <= lcount,
                        lcount == ls@.len(),
                        canvas.width == width,
                        canvas.height == height,
                        canvas.bytes@ == labels_fold(b0, width as int, c0, ls@.take(m as int)).0,
                        cursor == labels_fold(b0, width as int, c0, ls@.take(m as int)).1,
                        0 <= cursor,
                        cursor <= c0 + (m as int) * 0x2_0000_0000,
                    decreases lcount - m,
                {
                    proof {
                        assert(ls@.take(m + 1).drop_last() =~= ls@.take(m as int));
                        assert(ls@.take(m + 1).last() == ls@[m as int]);
                    }
                    let l = &ls[m];
                    let c2 = draw_label(&mut canvas, cursor, &l.glyphs);
                    cursor = c2;
                    m = m + 1;
                }
                proof {
                    assert(ls@.take(lcount as int) =~= ls@);
                }
            },
        }
        proof {
            assert(items@.take(n + 1).last() == items@[n as int]);
        }
        n = n + 1;
    }
    proof {
        assert(items@.take(count as int) =~= items@);
        lemma_items_fold_len(zb, width as int, 0, items@);
    }
    (canvas, cursor)
}

/// What the process must do with a finished canvas: sizes for the
/// per-frame shared-memory region and the buffer carved from it, in the
/// 32-bit fields the protocol calls take.  The buffer format is 4 bytes
/// per pixel, premultiplied alpha.
#[derive(Clone, Copy, Debug, PartialEq, Eq, Structural)]
pub struct FramePlan {
    /// Byte size of the shared-memory region: `width * height * 4`.
    pub pool_size: usize,
    pub width: i32,
    pub height: i32,
    /// Bytes per canvas row: `width * 4`.
    pub stride: i32,
}

/// Computes the buffer geometry of one frame.
pub fn frame_plan(width: u32, height: u32) -> (p: FramePlan)
    requires
        width * 4 <= i32::MAX,
        height <= i32::MAX,
        width * height * 4 <= i32::MAX,
    ensures
        p.pool_size == width * height * 4,
        p.width == width,
        p.height == height,
        p.stride == width * 4,
{
    FramePlan {
        pool_size: (width as usize) * (height as usize) * 4,
        width: width as i32,
        height: height as i32,
        stride: (width * 4) as i32,
    }
}

} // verus!

