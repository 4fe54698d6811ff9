//! The pixel grid and its drawing primitives.

use vstd::arithmetic::div_mod::lemma_fundamental_div_mod_converse;
use vstd::prelude::*;

use crate::texture::{
    height_of, texel, texel_of, texture_height, texture_is_rgba8, texture_width, width_of,
};
use image::DynamicImage;

verus! {

/// The mathematical model of a pixel grid: its size and the colour at each
/// coordinate inside it.
pub struct Frame {
    pub width: int,
    pub height: int,
    pub pixels: Map<(int, int), [u8; 4]>,
}

impl Frame {
    /// Whether `(x, y)` names a pixel of the grid.
    pub open spec fn contains(self, x: int, y: int) -> bool {
        0 <= x < self.width && 0 <= y < self.height
    }

    /// The colour at `(x, y)`.
    pub open spec fn at(self, x: int, y: int) -> [u8; 4] {
        self.pixels[(x, y)]
    }

    /// The grid is defined exactly on its own coordinates.
    pub open spec fn wf(self) -> bool {
        &&& self.width >= 0
        &&& self.height >= 0
        &&& forall|x: int, y: int| #[trigger]
            self.pixels.dom().contains((x, y)) <==> self.contains(x, y)
    }

    /// The grid in which every pixel that `paint` gives a colour has that
    /// colour and every other pixel is unchanged.
    pub open spec fn overlay(self, paint: spec_fn(int, int) -> Option<[u8; 4]>) -> Frame {
        Frame {
            width: self.width,
            height: self.height,
            pixels: Map::new(
                |p: (int, int)| self.contains(p.0, p.1),
                |p: (int, int)|
                    match paint(p.0, p.1) {
                        Some(c) => c,
                        None => self.pixels[p],
                    },
            ),
        }
    }

    /// The grid with every pixel set to `color`.
    pub open spec fn filled(self, color: [u8; 4]) -> Frame {
        self.overlay(|x: int, y: int| Some(color))
    }

    /// The grid with the pixel at `(x, y)` set to `color`; the same grid when
    /// `(x, y)` lies outside it.
    pub open spec fn put(self, x: int, y: int, color: [u8; 4]) -> Frame {
        self.overlay(
            |px: int, py: int|
                if px == x && py == y {
                    Some(color)
                } else {
                    None
                },
        )
    }
}

/// The number of cells of the span `[start, start + extent)` that lie in
/// `[0, limit)`.
pub open spec fn clipped_extent(start: int, extent: int, limit: int) -> int {
    let lo = if start < 0 { 0 } else { start };
    let hi = if start + extent > limit { limit } else { start + extent };
    if hi > lo { hi - lo } else { 0 }
}

/// What a vertical line through column `col`, over the rows
/// `[top_y, top_y + height)`, paints at `(x, y)`.
pub open spec fn vert_line_at(
    color: [u8; 4],
    col: int,
    top_y: int,
    height: int,
    x: int,
    y: int,
) -> Option<[u8; 4]> {
    if x == col && top_y <= y < top_y + height {
        Some(color)
    } else {
        None
    }
}

/// What a horizontal line through row `row`, over the columns
/// `[left_x, left_x + width)`, paints at `(x, y)`.
pub open spec fn hori_line_at(
    color: [u8; 4],
    left_x: int,
    row: int,
    width: int,
    x: int,
    y: int,
) -> Option<[u8; 4]> {
    if y == row && left_x <= x < left_x + width {
        Some(color)
    } else {
        None
    }
}

/// What a filled rectangle with corner `(left_x, top_y)` paints at `(x, y)`.
pub open spec fn rectangle_at(
    color: [u8; 4],
    left_x: int,
    top_y: int,
    width: int,
    height: int,
    x: int,
    y: int,
) -> Option<[u8; 4]> {
    if left_x <= x < left_x + width && top_y <= y < top_y + height {
        Some(color)
    } else {
        None
    }
}

/// The value a line primitive reports: `-1` when the line's fixed coordinate
/// `cross` lies outside `[0, cross_limit)` or its span `[start, start + extent)`
/// begins at or after `limit` or ends before `0`; otherwise the number of
/// pixels of the span inside `[0, limit)`.
pub open spec fn line_result(cross: int, cross_limit: int, start: int, extent: int, limit: int) -> int {
    if cross < 0 || cross >= cross_limit || start >= limit || start + extent < 0 {
        -1
    } else {
        clipped_extent(start, extent, limit)
    }
}

/// How far a rasterised line has moved along its minor axis after `k` steps
/// along its major axis: `k * minor / major` rounded to the nearest integer,
/// a tie rounding down. `major` and `minor` are the line's absolute extents.
pub open spec fn line_minor_steps(k: int, major: int, minor: int) -> int {
    if major <= 0 {
        0
    } else {
        (2 * k * minor + major - 1) / (2 * major)
    }
}

/// Whether the line that runs from `(a_major, a_minor)` to
/// `(b_major, b_minor)`, with `a_major <= b_major`, passes through
/// `(major, minor)`.
pub open spec fn major_line_covers(
    a_major: int,
    a_minor: int,
    b_major: int,
    b_minor: int,
    major: int,
    minor: int,
) -> bool {
    let extent = if b_minor < a_minor { a_minor - b_minor } else { b_minor - a_minor };
    let steps = line_minor_steps(major - a_major, b_major - a_major, extent);
    &&& a_major <= major <= b_major
    &&& minor == if b_minor < a_minor { a_minor - steps } else { a_minor + steps }
}

/// Whether the rasterised line between `(x1, y1)` and `(x2, y2)` passes
/// through `(x, y)`. The line is walked along the axis of its greater extent,
/// from the smaller coordinate to the larger.
pub open spec fn line_covers(x1: int, y1: int, x2: int, y2: int, x: int, y: int) -> bool {
    let adx = if x2 < x1 { x1 - x2 } else { x2 - x1 };
    let ady = if y2 < y1 { y1 - y2 } else { y2 - y1 };
    if ady < adx {
        if x1 > x2 {
            major_line_covers(x2, y2, x1, y1, x, y)
        } else {
            major_line_covers(x1, y1, x2, y2, x, y)
        }
    } else {
        if y1 > y2 {
            major_line_covers(y2, x2, y1, x1, y, x)
        } else {
            major_line_covers(y1, x1, y2, x2, y, x)
        }
    }
}

/// What the line between `(x1, y1)` and `(x2, y2)` paints at `(x, y)`.
pub open spec fn line_at(
    color: [u8; 4],
    x1: int,
    y1: int,
    x2: int,
    y2: int,
    x: int,
    y: int,
) -> Option<[u8; 4]> {
    if line_covers(x1, y1, x2, y2, x, y) {
        Some(color)
    } else {
        None
    }
}

/// A line never leaves the span of its end points on the minor axis.
pub proof fn lemma_line_minor_steps_bounds(k: int, major: int, minor: int)
    requires
        0 <= k <= major,
        0 <= minor <= major,
    ensures
        0 <= line_minor_steps(k, major, minor) <= minor,
        k == 0 ==> line_minor_steps(k, major, minor) == 0,
        k == major ==> line_minor_steps(k, major, minor) == minor,
{
    if major > 0 {
        let n = 2 * k * minor + major - 1;
        let q = n / (2 * major);
        let r = n % (2 * major);
        vstd::arithmetic::div_mod::lemma_fundamental_div_mod(n, 2 * major);
        vstd::arithmetic::div_mod::lemma_mod_bound(n, 2 * major);
        assert(n == (2 * major) * q + r);
        assert(0 <= 2 * k * minor && n < 2 * major * (minor + 1)) by (nonlinear_arith)
            requires
                0 <= k <= major,
                0 <= minor,
                major > 0,
                n == 2 * k * minor + major - 1,
        ;
        assert(q >= 0) by (nonlinear_arith)
            requires
                n == (2 * major) * q + r,
                0 <= r < 2 * major,
                n >= 0,
                major > 0,
        ;
        assert(q <= minor) by (nonlinear_arith)
            requires
                n == (2 * major) * q + r,
                0 <= r < 2 * major,
                n < 2 * major * (minor + 1),
                major > 0,
        ;
        if k == 0 {
            assert(k * minor == 0) by (nonlinear_arith)
                requires
                    k == 0,
            ;
            lemma_fundamental_div_mod_converse(n, 2 * major, 0, major - 1);
        }
        if k == major {
            assert(n == minor * (2 * major) + (major - 1)) by (nonlinear_arith)
                requires
                    n == 2 * k * minor + major - 1,
                    k == major,
            ;
            lemma_fundamental_div_mod_converse(n, 2 * major, minor, major - 1);
        }
    }
}

/// A rasterised line stays within half a pixel of the straight line between
/// its end points: after `k` steps along the major axis it has moved along
/// the minor axis by the integer nearest to `k * minor / major`.
pub proof fn lemma_line_within_half_pixel(k: int, major: int, minor: int)
    requires
        0 < major,
        0 <= k,
        0 <= minor,
    ensures
        -major < 2 * k * minor - 2 * major * line_minor_steps(k, major, minor) <= major,
{
    let n = 2 * k * minor + major - 1;
    let q = n / (2 * major);
    let r = n % (2 * major);
    vstd::arithmetic::div_mod::lemma_fundamental_div_mod(n, 2 * major);
    vstd::arithmetic::div_mod::lemma_mod_bound(n, 2 * major);
    assert(2 * major * q == (2 * major) * q) by (nonlinear_arith);
}

/// A line paints both of its end points.
pub proof fn lemma_line_covers_end_points(x1: int, y1: int, x2: int, y2: int)
    ensures
        line_covers(x1, y1, x2, y2, x1, y1),
        line_covers(x1, y1, x2, y2, x2, y2),
{
    let adx = if x2 < x1 { x1 - x2 } else { x2 - x1 };
    let ady = if y2 < y1 { y1 - y2 } else { y2 - y1 };
    if ady < adx {
        lemma_line_minor_steps_bounds(0, adx, ady);
        lemma_line_minor_steps_bounds(adx, adx, ady);
    } else {
        lemma_line_minor_steps_bounds(0, ady, adx);
        lemma_line_minor_steps_bounds(ady, ady, adx);
    }
}

/// A line is the same from either end.
pub proof fn lemma_line_symmetric(x1: int, y1: int, x2: int, y2: int, x: int, y: int)
    ensures
        line_covers(x1, y1, x2, y2, x, y) == line_covers(x2, y2, x1, y1, x, y),
{
}

/// A line whose end points both lie beyond the same edge of the grid paints
/// nothing.
pub proof fn lemma_line_outside_paints_nothing(
    f: Frame,
    color: [u8; 4],
    x1: int,
    y1: int,
    x2: int,
    y2: int,
)
    requires
        f.wf(),
        (x1 < 0 && x2 < 0) || (x1 >= f.width && x2 >= f.width) || (y1 < 0 && y2 < 0) || (y1
            >= f.height && y2 >= f.height),
    ensures
        f.overlay(|x: int, y: int| line_at(color, x1, y1, x2, y2, x, y)) == f,
{
    let g = f.overlay(|x: int, y: int| line_at(color, x1, y1, x2, y2, x, y));
    assert forall|x: int, y: int| f.contains(x, y) implies !line_covers(x1, y1, x2, y2, x, y) by {
        let adx = if x2 < x1 { x1 - x2 } else { x2 - x1 };
        let ady = if y2 < y1 { y1 - y2 } else { y2 - y1 };
        if line_covers(x1, y1, x2, y2, x, y) {
            if ady < adx {
                if x1 > x2 {
                    lemma_line_minor_steps_bounds(x - x2, x1 - x2, ady);
                } else {
                    lemma_line_minor_steps_bounds(x - x1, x2 - x1, ady);
                }
            } else {
                if y1 > y2 {
                    lemma_line_minor_steps_bounds(y - y2, y1 - y2, adx);
                } else {
                    lemma_line_minor_steps_bounds(y - y1, y2 - y1, adx);
                }
            }
        }
    }
    assert(g.pixels =~= f.pixels);
}

/// A size in pixels.
#[derive(Debug, Clone, Copy, PartialEq, Eq, Structural)]
pub struct Size {
    pub width: u32,
    pub height: u32,
}

/// A rectangle of texels, by its top left corner and its size.
#[derive(Debug, Clone, Copy, PartialEq, Eq, Structural)]
pub struct Rect {
    pub x: u32,
    pub y: u32,
    pub width: u32,
    pub height: u32,
}

/// One colour channel scaled by `shade / 255`.
pub open spec fn shade_channel(value: u8, shade: u8) -> u8 {
    (value as int * shade as int / 255) as u8
}

/// A colour with each channel scaled by the matching channel of `shade`.
pub open spec fn shade_color(color: [u8; 4], shade: [u8; 4]) -> [u8; 4] {
    [
        shade_channel(color[0], shade[0]),
        shade_channel(color[1], shade[1]),
        shade_channel(color[2], shade[2]),
        shade_channel(color[3], shade[3]),
    ]
}

/// What a scaled copy of the texels `sub` of `texture`, placed with its top
/// left corner at `(x0, y0)` and stretched to `size`, paints at `(x, y)`.
///
/// The pixel `(x0 + i, y0 + j)` of the copy shows the texel
/// `(sub.x + i * sub.width / size.width, sub.y + j * sub.height / size.height)`
/// with its channels scaled by `shade`; a pixel whose texel lies outside the
/// texture is not painted, and nothing is painted of a texture that is not
/// held as 8-bit RGBA.
pub open spec fn sub_texture_at(
    texture: DynamicImage,
    shade: [u8; 4],
    x0: int,
    y0: int,
    size: Size,
    sub: Rect,
    x: int,
    y: int,
) -> Option<[u8; 4]> {
    let i = x - x0;
    let j = y - y0;
    if 0 <= i < size.width && 0 <= j < size.height {
        let tx = sub.x + i * sub.width / (size.width as int);
        let ty = sub.y + j * sub.height / (size.height as int);
        if texture_is_rgba8(texture) && tx < texture_width(texture) && ty < texture_height(
            texture,
        ) {
            Some(shade_color(texel(texture, tx, ty), shade))
        } else {
            None
        }
    } else {
        None
    }
}

/// The rectangle that covers all of `texture`.
pub open spec fn whole_texture(texture: DynamicImage) -> Rect {
    Rect { x: 0, y: 0, width: texture_width(texture), height: texture_height(texture) }
}

/// Scaling by full brightness changes nothing.
pub proof fn lemma_shade_full(color: [u8; 4])
    ensures
        shade_color(color, [255u8, 255u8, 255u8, 255u8]) == color,
{
    let s = shade_color(color, [255u8, 255u8, 255u8, 255u8]);
    assert(s =~= color);
}

/// Scales one colour channel by `shade / 255`.
fn shaded_channel(value: u8, shade: u8) -> (r: u8)
    ensures
        r == shade_channel(value, shade),
{
    assert(0 <= value as int * shade as int <= 255 * 255) by (nonlinear_arith);
    ((value as u32 * shade as u32) / 255) as u8
}

/// Scales each channel of `color` by the matching channel of `shade`.
pub fn shaded_color(color: &[u8; 4], shade: &[u8; 4]) -> (r: [u8; 4])
    ensures
        r == shade_color(*color, *shade),
{
    [
        shaded_channel(color[0], shade[0]),
        shaded_channel(color[1], shade[1]),
        shaded_channel(color[2], shade[2]),
        shaded_channel(color[3], shade[3]),
    ]
}

/// One colour channel scaled by `num / den` and limited to 255.
pub open spec fn scale_channel(value: u8, num: int, den: int) -> u8 {
    if value * num / den > 255 {
        255u8
    } else {
        (value * num / den) as u8
    }
}

/// A colour with every channel scaled by `num / den` and limited to 255.
pub open spec fn scale_color(color: [u8; 4], num: int, den: int) -> [u8; 4] {
    [
        scale_channel(color[0], num, den),
        scale_channel(color[1], num, den),
        scale_channel(color[2], num, den),
        scale_channel(color[3], num, den),
    ]
}

/// Scales one colour channel by `num / den`, limited to 255.
pub fn scaled_channel(value: u8, num: i64, den: i64) -> (r: u8)
    requires
        0 <= num,
        0 < den,
    ensures
        r == scale_channel(value, num as int, den as int),
{
    assert(0 <= value * num <= 255 * num) by (nonlinear_arith)
        requires
            0 <= value <= 255,
            0 <= num,
    ;
    let v: i128 = (value as i128) * (num as i128) / (den as i128);
    if v > 255 {
        255
    } else {
        v as u8
    }
}

/// Scales every channel of a colour by `num / den`, limited to 255.
pub fn scaled_color(color: &[u8; 4], num: i64, den: i64) -> (r: [u8; 4])
    requires
        0 <= num,
        0 < den,
    ensures
        r == scale_color(*color, num as int, den as int),
{
    [
        scaled_channel(color[0], num, den),
        scaled_channel(color[1], num, den),
        scaled_channel(color[2], num, den),
        scaled_channel(color[3], num, den),
    ]
}

/// A vertical line that lies beside the grid, or ends above it, or begins
/// below it, paints nothing and reports no pixel drawn.
pub proof fn lemma_vert_line_outside(
    f: Frame,
    color: [u8; 4],
    x: int,
    top_y: int,
    height: int,
)
    requires
        f.wf(),
        x < 0 || x >= f.width || top_y >= f.height || top_y + height <= 0,
    ensures
        f.overlay(|px: int, py: int| vert_line_at(color, x, top_y, height, px, py)) == f,
        line_result(x, f.width, top_y, height, f.height) <= 0,
{
    let g = f.overlay(|px: int, py: int| vert_line_at(color, x, top_y, height, px, py));
    assert(g.pixels =~= f.pixels);
}

/// A horizontal line that lies above or below the grid, or ends left of it,
/// or begins right of it, paints nothing and reports no pixel drawn.
pub proof fn lemma_hori_line_outside(
    f: Frame,
    color: [u8; 4],
    left_x: int,
    y: int,
    width: int,
)
    requires
        f.wf(),
        y < 0 || y >= f.height || left_x >= f.width || left_x + width <= 0,
    ensures
        f.overlay(|px: int, py: int| hori_line_at(color, left_x, y, width, px, py)) == f,
        line_result(y, f.height, left_x, width, f.width) <= 0,
{
    let g = f.overlay(|px: int, py: int| hori_line_at(color, left_x, y, width, px, py));
    assert(g.pixels =~= f.pixels);
}

/// A line primitive reports a positive number exactly when its fixed
/// coordinate lies in the grid and its span is not empty and overlaps the
/// grid; it never reports more pixels than the grid has along the line.
pub proof fn lemma_line_result_bounds(
    cross: int,
    cross_limit: int,
    start: int,
    extent: int,
    limit: int,
)
    requires
        0 < limit,
    ensures
        line_result(cross, cross_limit, start, extent, limit) > 0 <==> (0 <= cross < cross_limit
            && extent > 0 && start < limit && start + extent > 0),
        -1 <= line_result(cross, cross_limit, start, extent, limit) <= limit,
{
}

/// Why a pixel grid could not be made.
#[derive(Debug, Clone, Copy, PartialEq, Eq, Structural)]
pub enum RendererError {
    /// A dimension was zero or negative, or the grid would not fit in memory.
    InvalidSize,
}

/// A `width` by `height` grid of RGBA8 pixels, stored row by row.
pub struct Renderer {
    width: i32,
    height: i32,
    frame_buffer: Vec<[u8; 4]>,
}

/// The place of an inner coordinate in row-by-row order lies in the buffer.
proof fn lemma_cell_index(width: int, height: int, x: int, y: int)
    by (nonlinear_arith)
    requires
        0 <= x < width,
        0 <= y < height,
    ensures
        0 <= y * width,
        0 <= y * width + x < width * height,
{
}

/// Different coordinates have different places in row-by-row order.
proof fn lemma_cell_index_unique(width: int, x1: int, y1: int, x2: int, y2: int)
    by (nonlinear_arith)
    requires
        0 <= x1 < width,
        0 <= x2 < width,
        y1 * width + x1 == y2 * width + x2,
    ensures
        x1 == x2,
        y1 == y2,
{
}

impl Renderer {
    /// The representation invariant: positive dimensions and one stored pixel
    /// per coordinate.
    pub closed spec fn wf(&self) -> bool {
        &&& self.width > 0
        &&& self.height > 0
        &&& self.width * self.height <= usize::MAX
        &&& self.frame_buffer@.len() == self.width * self.height
    }

    /// The grid this value stands for.
    pub closed spec fn view(&self) -> Frame {
        Frame {
            width: self.width as int,
            height: self.height as int,
            pixels: Map::new(
                |p: (int, int)| 0 <= p.0 < self.width && 0 <= p.1 < self.height,
                |p: (int, int)| self.frame_buffer@[p.1 * self.width + p.0],
            ),
        }
    }

    /// A well-formed renderer stands for a well-formed grid with at least one
    /// pixel.
    pub proof fn lemma_view_wf(&self)
        requires
            self.wf(),
        ensures
            self@.wf(),
            self@.width > 0,
            self@.height > 0,
            self@.width <= i32::MAX,
            self@.height <= i32::MAX,
    {
    }

    /// Makes a grid of the given size with every pixel `[0, 0, 0, 0]`.
    ///
    /// Fails exactly when a dimension is not positive or the number of pixels
    /// exceeds `usize::MAX`.
    pub fn new(width: i32, height: i32) -> (r: Result<Renderer, RendererError>)
        ensures
            r is Ok <==> (width > 0 && height > 0 && width * height <= usize::MAX),
            r is Err ==> r == Err::<Renderer, RendererError>(RendererError::InvalidSize),
            r is Ok ==> {
                let f = r->Ok_0;
                &&& f.wf()
                &&& f@.width == width
                &&& f@.height == height
                &&& forall|x: int, y: int| f@.contains(x, y) ==> f@.at(x, y) == [0u8, 0u8, 0u8, 0u8]
            },
    {
        if width <= 0 || height <= 0 {
            return Err(RendererError::InvalidSize);
        }
        assert(0 <= width * height <= 0x7fff_ffff * 0x7fff_ffff) by (nonlinear_arith)
            requires
                0 < width <= 0x7fff_ffff,
                0 < height <= 0x7fff_ffff,
        ;
        let count: u64 = (width as u64) * (height as u64);
        if count > usize::MAX as u64 {
            return Err(RendererError::InvalidSize);
        }
        let n: usize = count as usize;
        let mut frame_buffer: Vec<[u8; 4]> = Vec::with_capacity(n);
        let mut i: usize = 0;
        while i < n
            invariant
                i <= n,
                frame_buffer@.len() == i,
                forall|j: int| 0 <= j < i ==> frame_buffer@[j] == [0u8, 0u8, 0u8, 0u8],
            decreases n - i,
        {
            frame_buffer.push([0u8, 0u8, 0u8, 0u8]);
            i += 1;
        }
        let r = Renderer { width, height, frame_buffer };
        proof {
            assert forall|x: int, y: int| r@.contains(x, y) implies r@.at(x, y) == [
                0u8,
                0u8,
                0u8,
                0u8,
            ] by {
                lemma_cell_index(width as int, height as int, x, y);
            }
        }
        Ok(r)
    }

    /// The number of pixel columns.
    pub fn width(&self) -> (w: i32)
        requires
            self.wf(),
        ensures
            w == self@.width,
    {
        self.width
    }

    /// The number of pixel rows.
    pub fn height(&self) -> (h: i32)
        requires
            self.wf(),
        ensures
            h == self@.height,
    {
        self.height
    }

    /// The colour at `(x, y)`, or `None` outside the grid.
    pub fn pixel(&self, x: i32, y: i32) -> (c: Option<[u8; 4]>)
        requires
            self.wf(),
        ensures
            c == if self@.contains(x as int, y as int) {
                Some(self@.at(x as int, y as int))
            } else {
                None
            },
    {
        if x < 0 || x >= self.width || y < 0 || y >= self.height {
            return None;
        }
        proof {
            lemma_cell_index(self.width as int, self.height as int, x as int, y as int);
        }
        let idx: usize = (y as usize) * (self.width as usize) + (x as usize);
        Some(self.frame_buffer[idx])
    }

    /// Sets every pixel to `color`.
    pub fn fill(&mut self, color: &[u8; 4])
        requires
            old(self).wf(),
        ensures
            final(self).wf(),
            final(self)@ == old(self)@.filled(*color),
    {
        let n: usize = self.frame_buffer.len();
        let mut i: usize = 0;
        while i < n
            invariant
                i <= n,
                self.width == old(self).width,
                self.height == old(self).height,
                self.frame_buffer@.len() == n,
                n == self.width * self.height,
                forall|j: int| 0 <= j < i ==> self.frame_buffer@[j] == *color,
            decreases n - i,
        {
            self.frame_buffer[i] = *color;
            i += 1;
        }
        proof {
            let want = old(self)@.filled(*color);
            assert forall|p: (int, int)| self@.pixels.dom().contains(p) implies self@.pixels[p]
                == want.pixels[p] by {
                lemma_cell_index(self.width as int, self.height as int, p.0, p.1);
            }
            assert(self@.pixels =~= want.pixels);
        }
    }

    /// Sets the pixel at `(x, y)` to `color`; does nothing when `(x, y)` lies
    /// outside the grid.
    pub fn draw_pixel(&mut self, color: &[u8; 4], x: i32, y: i32)
        requires
            old(self).wf(),
        ensures
            final(self).wf(),
            final(self)@ == old(self)@.put(x as int, y as int, *color),
    {
        if x < 0 || x >= self.width || y < 0 || y >= self.height {
            proof {
                assert(self@.pixels =~= old(self)@.put(x as int, y as int, *color).pixels);
            }
            return ;
        }
        proof {
            lemma_cell_index(self.width as int, self.height as int, x as int, y as int);
        }
        let idx: usize = (y as usize) * (self.width as usize) + (x as usize);
        self.frame_buffer[idx] = *color;
        proof {
            let want = old(self)@.put(x as int, y as int, *color);
            assert forall|p: (int, int)| self@.pixels.dom().contains(p) implies self@.pixels[p]
                == want.pixels[p] by {
                if p.0 != x || p.1 != y {
                    lemma_cell_index(self.width as int, self.height as int, p.0, p.1);
                    if p.1 * self.width + p.0 == idx {
                        lemma_cell_index_unique(self.width as int, p.0, p.1, x as int, y as int);
                    }
                }
            }
            assert(self@.pixels =~= want.pixels);
        }
    }

    /// Draws a vertical line in column `x` over the rows
    /// `[top_y, top_y + height)`, clipped to the grid, and reports how many
    /// pixels were drawn (`-1` when the line was rejected as outside).
    pub fn draw_vert_line(&mut self, color: &[u8; 4], x: i32, top_y: i32, height: i32) -> (drawn:
        i32)
        requires
            old(self).wf(),
        ensures
            final(self).wf(),
            final(self)@ == old(self)@.overlay(
                |px: int, py: int| vert_line_at(*color, x as int, top_y as int, height as int, px, py),
            ),
            drawn == line_result(
                x as int,
                old(self)@.width,
                top_y as int,
                height as int,
                old(self)@.height,
            ),
    {
        let ghost paint = |px: int, py: int|
            vert_line_at(*color, x as int, top_y as int, height as int, px, py);
        let end: i64 = top_y as i64 + height as i64;
        if x < 0 || x >= self.width || top_y >= self.height || end < 0 {
            proof {
                assert(self@.pixels =~= old(self)@.overlay(paint).pixels);
            }
            return -1;
        }
        let lo: i32 = if top_y < 0 { 0 } else { top_y };
        let hi: i32 = if end > self.height as i64 { self.height } else { end as i32 };
        let mut y: i32 = lo;
        proof {
            assert(self@.pixels =~= old(self)@.overlay(
                |px: int, py: int| if py < lo { paint(px, py) } else { None },
            ).pixels);
        }
        while y < hi
            invariant
                self.wf(),
                0 <= lo <= self.height,
                hi <= self.height,
                lo <= y,
                y <= hi || hi < lo,
                0 <= x < self.width,
                lo == (if top_y < 0 { 0 } else { top_y as int }),
                hi == (if top_y + height > self.height { self.height as int } else { top_y + height }),
                paint == |px: int, py: int|
                    vert_line_at(*color, x as int, top_y as int, height as int, px, py),
                self@ == old(self)@.overlay(
                    |px: int, py: int| if py < y { paint(px, py) } else { None },
                ),
            decreases hi - y,
        {
            self.draw_pixel(color, x, y);
            proof {
                assert(self@.pixels =~= old(self)@.overlay(
                    |px: int, py: int| if py < y + 1 { paint(px, py) } else { None },
                ).pixels);
            }
            y += 1;
        }
        proof {
            assert(self@.pixels =~= old(self)@.overlay(paint).pixels);
        }
        if hi > lo { hi - lo } else { 0 }
    }

    /// Draws a horizontal line in row `y` over the columns
    /// `[left_x, left_x + width)`, clipped to the grid, and reports how many
    /// pixels were drawn (`-1` when the line was rejected as outside).
    pub fn draw_hori_line(&mut self, color: &[u8; 4], left_x: i32, y: i32, width: i32) -> (drawn:
        i32)
        requires
            old(self).wf(),
        ensures
            final(self).wf(),
            final(self)@ == old(self)@.overlay(
                |px: int, py: int| hori_line_at(*color, left_x as int, y as int, width as int, px, py),
            ),
            drawn == line_result(
                y as int,
                old(self)@.height,
                left_x as int,
                width as int,
                old(self)@.width,
            ),
    {
        let ghost paint = |px: int, py: int|
            hori_line_at(*color, left_x as int, y as int, width as int, px, py);
        let end: i64 = left_x as i64 + width as i64;
        if y < 0 || y >= self.height || left_x >= self.width || end < 0 {
            proof {
                assert(self@.pixels =~= old(self)@.overlay(paint).pixels);
            }
            return -1;
        }
        let lo: i32 = if left_x < 0 { 0 } else { left_x };
        let hi: i32 = if end > self.width as i64 { self.width } else { end as i32 };
        let mut x: i32 = lo;
        proof {
            assert(self@.pixels =~= old(self)@.overlay(
                |px: int, py: int| if px < lo { paint(px, py) } else { None },
            ).pixels);
        }
        while x < hi
            invariant
                self.wf(),
                0 <= lo <= self.width,
                hi <= self.width,
                lo <= x,
                x <= hi || hi < lo,
                0 <= y < self.height,
                lo == (if left_x < 0 { 0 } else { left_x as int }),
                hi == (if left_x + width > self.width { self.width as int } else { left_x + width }),
                paint == |px: int, py: int|
                    hori_line_at(*color, left_x as int, y as int, width as int, px, py),
                self@ == old(self)@.overlay(
                    |px: int, py: int| if px < x { paint(px, py) } else { None },
                ),
            decreases hi - x,
        {
            self.draw_pixel(color, x, y);
            proof {
                assert(self@.pixels =~= old(self)@.overlay(
                    |px: int, py: int| if px < x + 1 { paint(px, py) } else { None },
                ).pixels);
            }
            x += 1;
        }
        proof {
            assert(self@.pixels =~= old(self)@.overlay(paint).pixels);
        }
        if hi > lo { hi - lo } else { 0 }
    }

    /// Fills the rectangle with corner `(x, y)` and the given size, clipped to
    /// the grid.
    pub fn draw_rectangle(&mut self, color: &[u8; 4], x: i32, y: i32, width: i32, height: i32)
        requires
            old(self).wf(),
        ensures
            final(self).wf(),
            final(self)@ == old(self)@.overlay(
                |px: int, py: int|
                    rectangle_at(*color, x as int, y as int, width as int, height as int, px, py),
            ),
    {
        let ghost paint = |px: int, py: int|
            rectangle_at(*color, x as int, y as int, width as int, height as int, px, py);
        let end: i64 = x as i64 + width as i64;
        let lo: i32 = if x < 0 { 0 } else { x };
        let hi: i32 = if end > self.width as i64 {
            self.width
        } else if end < 0 {
            0
        } else {
            end as i32
        };
        let mut col: i32 = lo;
        proof {
            assert(self@.pixels =~= old(self)@.overlay(
                |px: int, py: int| if px < lo { paint(px, py) } else { None },
            ).pixels);
        }
        while col < hi
            invariant
                self.wf(),
                self@.width == old(self)@.width,
                0 <= lo,
                hi <= self@.width,
                lo <= col,
                col <= hi || hi < lo,
                lo == (if x < 0 { 0 } else { x as int }),
                hi == (if x + width > self@.width {
                    self@.width
                } else if x + width < 0 {
                    0
                } else {
                    x + width
                }),
                paint == |px: int, py: int|
                    rectangle_at(*color, x as int, y as int, width as int, height as int, px, py),
                self@ == old(self)@.overlay(
                    |px: int, py: int| if px < col { paint(px, py) } else { None },
                ),
            decreases hi - col,
        {
            let _ = self.draw_vert_line(color, col, y, height);
            proof {
                assert(self@.pixels =~= old(self)@.overlay(
                    |px: int, py: int| if px < col + 1 { paint(px, py) } else { None },
                ).pixels);
            }
            col += 1;
        }
        proof {
            assert(self@.pixels =~= old(self)@.overlay(paint).pixels);
        }
    }

    /// Walks the line from `(a_major, a_minor)` to `(b_major, b_minor)` along
    /// its major axis, which is `y` when `steep` and `x` otherwise, and paints
    /// each point that lies in the grid. The walk begins at the first step
    /// that can lie in the grid and ends with the last; from one step to the
    /// next an error term tells whether the line moves along the minor axis.
    fn draw_line_major(
        &mut self,
        color: &[u8; 4],
        a_major: i32,
        a_minor: i32,
        b_major: i32,
        b_minor: i32,
        steep: bool,
    )
        requires
            old(self).wf(),
            a_major <= b_major,
            b_minor - a_minor <= b_major - a_major,
            a_minor - b_minor <= b_major - a_major,
        ensures
            final(self).wf(),
            final(self)@ == old(self)@.overlay(
                |x: int, y: int|
                    if major_line_covers(
                        a_major as int,
                        a_minor as int,
                        b_major as int,
                        b_minor as int,
                        if steep { y } else { x },
                        if steep { x } else { y },
                    ) {
                        Some(*color)
                    } else {
                        None
                    },
            ),
    {
        let d_major: i64 = b_major as i64 - a_major as i64;
        let rising: bool = b_minor >= a_minor;
        let d_minor: i64 = if rising {
            b_minor as i64 - a_minor as i64
        } else {
            a_minor as i64 - b_minor as i64
        };
        let limit: i64 = if steep { self.height as i64 } else { self.width as i64 };
        let first: i64 = if a_major < 0 { 0 } else { a_major as i64 };
        let last: i64 = if b_major as i64 >= limit { limit - 1 } else { b_major as i64 };
        let ghost covers = |x: int, y: int|
            major_line_covers(
                a_major as int,
                a_minor as int,
                b_major as int,
                b_minor as int,
                if steep { y } else { x },
                if steep { x } else { y },
            );
        if first > last {
            proof {
                assert(self@.pixels =~= old(self)@.overlay(
                    |x: int, y: int|
                        if major_line_covers(
                            a_major as int,
                            a_minor as int,
                            b_major as int,
                            b_minor as int,
                            if steep { y } else { x },
                            if steep { x } else { y },
                        ) {
                            Some(*color)
                        } else {
                            None
                        },
                ).pixels);
            }
            return ;
        }
        let skipped: i64 = first - a_major as i64;
        assert(0 <= 2 * skipped * d_minor <= 2 * 0x1_0000_0000 * 0x1_0000_0000) by (nonlinear_arith)
            requires
                0 <= skipped <= 0x1_0000_0000,
                0 <= d_minor <= 0x1_0000_0000,
        ;
        let start_numer: i128 = 2 * (skipped as i128) * (d_minor as i128) + d_major as i128 - 1;
        let start_steps: i64 = if d_major > 0 {
            proof {
                lemma_line_minor_steps_bounds(skipped as int, d_major as int, d_minor as int);
            }
            (start_numer / (2 * (d_major as i128))) as i64
        } else {
            0
        };
        assert(0 <= 2 * d_major * start_steps <= 2 * 0x1_0000_0000 * 0x1_0000_0000)
            by (nonlinear_arith)
            requires
                0 <= d_major <= 0x1_0000_0000,
                0 <= start_steps <= 0x1_0000_0000,
        ;
        let start_taken: i128 = 2 * (d_major as i128) * (start_steps as i128);
        proof {
            if d_major > 0 {
                vstd::arithmetic::div_mod::lemma_fundamental_div_mod(
                    start_numer as int,
                    2 * d_major as int,
                );
                vstd::arithmetic::div_mod::lemma_mod_bound(start_numer as int, 2 * d_major as int);
                assert(start_taken == (2 * d_major) * start_steps) by (nonlinear_arith)
                    requires
                        start_taken == 2 * d_major * start_steps,
                ;
            }
        }
        let mut d: i64 = if d_major > 0 {
            (start_numer + 2 * (d_minor as i128) - 2 * (d_major as i128) + 1 - start_taken) as i64
        } else {
            0
        };
        let mut major: i64 = first;
        let mut minor: i64 = if rising {
            a_minor as i64 + start_steps
        } else {
            a_minor as i64 - start_steps
        };
        let ghost mut steps: int = start_steps as int;
        let ghost mut numer: int = start_numer as int;
        let ghost mut taken: int = start_taken as int;
        proof {
            assert(self@.pixels =~= old(self)@.overlay(
                |x: int, y: int|
                    if covers(x, y) && (if steep { y } else { x }) < major {
                        Some(*color)
                    } else {
                        None
                    },
            ).pixels);
        }
        while major <= last
            invariant
                self.wf(),
                limit == (if steep { self@.height } else { self@.width }),
                self@.width == old(self)@.width,
                self@.height == old(self)@.height,
                first == (if a_major < 0 { 0 } else { a_major as int }),
                last == (if b_major >= limit { limit - 1 } else { b_major as int }),
                first <= major <= last + 1,
                d_major == b_major - a_major,
                rising == (b_minor >= a_minor),
                d_minor == (if rising { b_minor - a_minor } else { a_minor - b_minor }),
                0 <= d_minor <= d_major,
                0 <= steps <= d_minor + (major - first),
                minor == (if rising { a_minor + steps } else { a_minor - steps }),
                numer == 2 * (major - a_major) * d_minor + d_major - 1,
                taken == 2 * d_major * steps,
                d_major > 0 ==> taken <= numer < taken + 2 * d_major,
                d_major > 0 ==> d == numer + 2 * d_minor - 2 * d_major + 1 - taken,
                d_major == 0 ==> d == 0 && steps == 0,
                covers == |x: int, y: int|
                    major_line_covers(
                        a_major as int,
                        a_minor as int,
                        b_major as int,
                        b_minor as int,
                        if steep { y } else { x },
                        if steep { x } else { y },
                    ),
                self@ == old(self)@.overlay(
                    |x: int, y: int|
                        if covers(x, y) && (if steep { y } else { x }) < major {
                            Some(*color)
                        } else {
                            None
                        },
                ),
            decreases last + 1 - major,
        {
            let x: i64 = if steep { minor } else { major };
            let y: i64 = if steep { major } else { minor };
            proof {
                if d_major > 0 {
                    assert(taken == steps * (2 * d_major)) by (nonlinear_arith)
                        requires
                            taken == 2 * d_major * steps,
                    ;
                    lemma_fundamental_div_mod_converse(numer, 2 * d_major, steps, numer - taken);
                }
                assert(line_minor_steps(major - a_major, d_major as int, d_minor as int) == steps);
            }
            if 0 <= x && x < self.width as i64 && 0 <= y && y < self.height as i64 {
                self.draw_pixel(color, x as i32, y as i32);
            }
            proof {
                assert(self@.pixels =~= old(self)@.overlay(
                    |x: int, y: int|
                        if covers(x, y) && (if steep { y } else { x }) < major + 1 {
                            Some(*color)
                        } else {
                            None
                        },
                ).pixels);
                assert(2 * (major + 1 - a_major) * d_minor == 2 * (major - a_major) * d_minor + 2
                    * d_minor) by (nonlinear_arith);
                assert(2 * d_major * (steps + 1) == 2 * d_major * steps + 2 * d_major)
                    by (nonlinear_arith);
            }
            if d > 0 {
                minor = if rising { minor + 1 } else { minor - 1 };
                d = d + 2 * (d_minor - d_major);
                proof {
                    steps = steps + 1;
                    taken = taken + 2 * d_major;
                }
            } else {
                d = d + 2 * d_minor;
            }
            proof {
                numer = numer + 2 * d_minor;
            }
            major = major + 1;
        }
        proof {
            assert(self@.pixels =~= old(self)@.overlay(
                |x: int, y: int|
                    if major_line_covers(
                        a_major as int,
                        a_minor as int,
                        b_major as int,
                        b_minor as int,
                        if steep { y } else { x },
                        if steep { x } else { y },
                    ) {
                        Some(*color)
                    } else {
                        None
                    },
            ).pixels);
        }
    }

    /// Draws a line that is wider than it is tall, from its left end
    /// `(x1, y1)` to its right end `(x2, y2)`.
    fn draw_line_low(&mut self, color: &[u8; 4], x1: i32, y1: i32, x2: i32, y2: i32)
        requires
            old(self).wf(),
            x1 <= x2,
            y2 - y1 <= x2 - x1,
            y1 - y2 <= x2 - x1,
        ensures
            final(self).wf(),
            final(self)@ == old(self)@.overlay(
                |x: int, y: int|
                    if major_line_covers(x1 as int, y1 as int, x2 as int, y2 as int, x, y) {
                        Some(*color)
                    } else {
                        None
                    },
            ),
    {
        self.draw_line_major(color, x1, y1, x2, y2, false);
        proof {
            assert(self@.pixels =~= old(self)@.overlay(
                |x: int, y: int|
                    if major_line_covers(x1 as int, y1 as int, x2 as int, y2 as int, x, y) {
                        Some(*color)
                    } else {
                        None
                    },
            ).pixels);
        }
    }

    /// Draws a line that is at least as tall as it is wide, from its upper end
    /// `(x1, y1)` to its lower end `(x2, y2)`.
    fn draw_line_high(&mut self, color: &[u8; 4], x1: i32, y1: i32, x2: i32, y2: i32)
        requires
            old(self).wf(),
            y1 <= y2,
            x2 - x1 <= y2 - y1,
            x1 - x2 <= y2 - y1,
        ensures
            final(self).wf(),
            final(self)@ == old(self)@.overlay(
                |x: int, y: int|
                    if major_line_covers(y1 as int, x1 as int, y2 as int, x2 as int, y, x) {
                        Some(*color)
                    } else {
                        None
                    },
            ),
    {
        self.draw_line_major(color, y1, x1, y2, x2, true);
        proof {
            assert(self@.pixels =~= old(self)@.overlay(
                |x: int, y: int|
                    if major_line_covers(y1 as int, x1 as int, y2 as int, x2 as int, y, x) {
                        Some(*color)
                    } else {
                        None
                    },
            ).pixels);
        }
    }

    /// Draws the line between `(x1, y1)` and `(x2, y2)`, both ends included,
    /// painting only the points that lie in the grid.
    pub fn draw_line(&mut self, color: &[u8; 4], x1: i32, y1: i32, x2: i32, y2: i32)
        requires
            old(self).wf(),
        ensures
            final(self).wf(),
            final(self)@ == old(self)@.overlay(
                |x: int, y: int|
                    line_at(*color, x1 as int, y1 as int, x2 as int, y2 as int, x, y),
            ),
    {
        let ghost paint = |x: int, y: int|
            line_at(*color, x1 as int, y1 as int, x2 as int, y2 as int, x, y);
        if (x1 < 0 && x2 < 0) || (x1 >= self.width && x2 >= self.width) || (y1 < 0 && y2 < 0) || (
        y1 >= self.height && y2 >= self.height) {
            proof {
                self.lemma_view_wf();
                lemma_line_outside_paints_nothing(
                    self@,
                    *color,
                    x1 as int,
                    y1 as int,
                    x2 as int,
                    y2 as int,
                );
            }
            return ;
        }
        let dx: i64 = x2 as i64 - x1 as i64;
        let dy: i64 = y2 as i64 - y1 as i64;
        let adx: i64 = if dx < 0 { -dx } else { dx };
        let ady: i64 = if dy < 0 { -dy } else { dy };
        if ady < adx {
            if x1 > x2 {
                self.draw_line_low(color, x2, y2, x1, y1);
            } else {
                self.draw_line_low(color, x1, y1, x2, y2);
            }
        } else {
            if y1 > y2 {
                self.draw_line_high(color, x2, y2, x1, y1);
            } else {
                self.draw_line_high(color, x1, y1, x2, y2);
            }
        }
        proof {
            assert(self@.pixels =~= old(self)@.overlay(paint).pixels);
        }
    }

    /// Draws the texels `sub_image` of `texture`, stretched to `size`, with
    /// the top left corner at `(x, y)` and every channel scaled by the
    /// matching channel of `shade`. Pixels outside the grid, and pixels whose
    /// texel lies outside the texture, are skipped; a texture that is not held
    /// as 8-bit RGBA is not drawn at all.
    pub fn draw_sub_texture_shaded(
        &mut self,
        texture: &DynamicImage,
        shade: &[u8; 4],
        x: i32,
        y: i32,
        size: Size,
        sub_image: Rect,
    )
        requires
            old(self).wf(),
        ensures
            final(self).wf(),
            final(self)@ == old(self)@.overlay(
                |px: int, py: int|
                    sub_texture_at(*texture, *shade, x as int, y as int, size, sub_image, px, py),
            ),
    {
        let ghost paint = |px: int, py: int|
            sub_texture_at(*texture, *shade, x as int, y as int, size, sub_image, px, py);
        let texture_w: u32 = width_of(texture);
        let texture_h: u32 = height_of(texture);
        let x_end: i64 = x as i64 + size.width as i64;
        let y_end: i64 = y as i64 + size.height as i64;
        let x_lo: i64 = if x < 0 { 0 } else { x as i64 };
        let y_lo: i64 = if y < 0 { 0 } else { y as i64 };
        let x_hi: i64 = if x_end > self.width as i64 { self.width as i64 } else { x_end };
        let y_hi: i64 = if y_end > self.height as i64 { self.height as i64 } else { y_end };
        let mut py: i64 = y_lo;
        proof {
            assert(self@.pixels =~= old(self)@.overlay(
                |qx: int, qy: int| if qy < py { paint(qx, qy) } else { None },
            ).pixels);
        }
        while py < y_hi
            invariant
                self.wf(),
                self@.width == old(self)@.width,
                self@.height == old(self)@.height,
                texture_w == texture_width(*texture),
                texture_h == texture_height(*texture),
                x_lo == (if x < 0 { 0 } else { x as int }),
                y_lo == (if y < 0 { 0 } else { y as int }),
                x_hi == (if x + size.width > self@.width { self@.width } else { x + size.width }),
                y_hi == (if y + size.height > self@.height { self@.height } else { y + size.height }),
                y_lo <= py,
                py <= y_hi || y_hi < y_lo,
                paint == |px: int, py: int|
                    sub_texture_at(*texture, *shade, x as int, y as int, size, sub_image, px, py),
                self@ == old(self)@.overlay(
                    |qx: int, qy: int| if qy < py { paint(qx, qy) } else { None },
                ),
            decreases y_hi - py,
        {
            let j: u64 = (py - y as i64) as u64;
            assert(0 <= j * sub_image.height <= 0xffff_ffff * 0xffff_ffff) by (nonlinear_arith)
                requires
                    0 <= j <= 0xffff_ffff,
                    0 <= sub_image.height <= 0xffff_ffff,
            ;
            let ty: u64 = sub_image.y as u64 + j * (sub_image.height as u64) / (size.height as u64);
            let mut px: i64 = x_lo;
            proof {
                assert(self@.pixels =~= old(self)@.overlay(
                    |qx: int, qy: int|
                        if qy < py || (qy == py && qx < px) {
                            paint(qx, qy)
                        } else {
                            None
                        },
                ).pixels);
            }
            while px < x_hi
                invariant
                    self.wf(),
                    self@.width == old(self)@.width,
                    self@.height == old(self)@.height,
                    texture_w == texture_width(*texture),
                    texture_h == texture_height(*texture),
                    x_lo == (if x < 0 { 0 } else { x as int }),
                    x_hi == (if x + size.width > self@.width { self@.width } else { x + size.width }),
                    0 <= y_lo <= py < y_hi <= self@.height,
                    py < y + size.height,
                    y <= py,
                    j == py - y,
                    ty == sub_image.y + j * sub_image.height / (size.height as int),
                    x_lo <= px,
                    px <= x_hi || x_hi < x_lo,
                    paint == |px: int, py: int|
                        sub_texture_at(
                            *texture,
                            *shade,
                            x as int,
                            y as int,
                            size,
                            sub_image,
                            px,
                            py,
                        ),
                    self@ == old(self)@.overlay(
                        |qx: int, qy: int|
                            if qy < py || (qy == py && qx < px) {
                                paint(qx, qy)
                            } else {
                                None
                            },
                    ),
                decreases x_hi - px,
            {
                let i: u64 = (px - x as i64) as u64;
                assert(0 <= i * sub_image.width <= 0xffff_ffff * 0xffff_ffff) by (nonlinear_arith)
                    requires
                        0 <= i <= 0xffff_ffff,
                        0 <= sub_image.width <= 0xffff_ffff,
                ;
                let tx: u64 = sub_image.x as u64 + i * (sub_image.width as u64) / (
                size.width as u64);
                if tx < texture_w as u64 && ty < texture_h as u64 {
                    if let Some(source) = texel_of(texture, tx as u32, ty as u32) {
                        let color = shaded_color(&source, shade);
                        self.draw_pixel(&color, px as i32, py as i32);
                    }
                }
                proof {
                    assert(self@.pixels =~= old(self)@.overlay(
                        |qx: int, qy: int|
                            if qy < py || (qy == py && qx < px + 1) {
                                paint(qx, qy)
                            } else {
                                None
                            },
                    ).pixels);
                }
                px += 1;
            }
            proof {
                assert(self@.pixels =~= old(self)@.overlay(
                    |qx: int, qy: int| if qy < py + 1 { paint(qx, qy) } else { None },
                ).pixels);
            }
            py += 1;
        }
        proof {
            assert(self@.pixels =~= old(self)@.overlay(paint).pixels);
        }
    }

    /// Draws the texels `sub_image` of `texture`, stretched to `size`, with
    /// the top left corner at `(x, y)`.
    pub fn draw_sub_texture(
        &mut self,
        texture: &DynamicImage,
        x: i32,
        y: i32,
        size: Size,
        sub_image: Rect,
    )
        requires
            old(self).wf(),
        ensures
            final(self).wf(),
            final(self)@ == old(self)@.overlay(
                |px: int, py: int|
                    sub_texture_at(
                        *texture,
                        [255u8, 255u8, 255u8, 255u8],
                        x as int,
                        y as int,
                        size,
                        sub_image,
                        px,
                        py,
                    ),
            ),
    {
        let full: [u8; 4] = [255u8, 255u8, 255u8, 255u8];
        self.draw_sub_texture_shaded(texture, &full, x, y, size, sub_image);
        proof {
            assert(self@.pixels =~= old(self)@.overlay(
                |px: int, py: int|
                    sub_texture_at(
                        *texture,
                        [255u8, 255u8, 255u8, 255u8],
                        x as int,
                        y as int,
                        size,
                        sub_image,
                        px,
                        py,
                    ),
            ).pixels);
        }
    }

    /// Draws all of `texture`, stretched to `size`, with the top left corner
    /// at `(x, y)`.
    pub fn draw_texture(&mut self, texture: &DynamicImage, x: i32, y: i32, size: Size)
        requires
            old(self).wf(),
        ensures
            final(self).wf(),
            final(self)@ == old(self)@.overlay(
                |px: int, py: int|
                    sub_texture_at(
                        *texture,
                        [255u8, 255u8, 255u8, 255u8],
                        x as int,
                        y as int,
                        size,
                        whole_texture(*texture),
                        px,
                        py,
                    ),
            ),
    {
        let whole = Rect { x: 0, y: 0, width: width_of(texture), height: height_of(texture) };
        self.draw_sub_texture(texture, x, y, size, whole);
        proof {
            assert(self@.pixels =~= old(self)@.overlay(
                |px: int, py: int|
                    sub_texture_at(
                        *texture,
                        [255u8, 255u8, 255u8, 255u8],
                        x as int,
                        y as int,
                        size,
                        whole_texture(*texture),
                        px,
                        py,
                    ),
            ).pixels);
        }
    }

    /// The pixels row by row: the pixel `(x, y)` is entry `y * width + x`.
    pub fn frame(&self) -> (pixels: &Vec<[u8; 4]>)
        requires
            self.wf(),
        ensures
            pixels@.len() == self@.width * self@.height,
            forall|x: int, y: int|
                self@.contains(x, y) ==> pixels@[y * self@.width + x] == #[trigger] self@.at(x, y),
    {
        &self.frame_buffer
    }

    /// The picture as the bytes of an RGBA8 surface of the same size: four
    /// bytes for each pixel, row by row.
    pub fn render(&self) -> (bytes: Vec<u8>)
        requires
            self.wf(),
        ensures
            bytes@.len() == 4 * (self@.width * self@.height),
            forall|x: int, y: int, c: int|
                self@.contains(x, y) && 0 <= c < 4 ==> bytes@[4 * (y * self@.width + x) + c]
                    == #[trigger] self@.at(x, y)[c],
    {
        let count: usize = self.frame_buffer.len();
        let mut bytes: Vec<u8> = Vec::new();
        let mut i: usize = 0;
        while i < count
            invariant
                i <= count,
                count == self.frame_buffer@.len(),
                bytes@.len() == 4 * i,
                forall|k: int, c: int|
                    0 <= k < i && 0 <= c < 4 ==> bytes@[4 * k + c]
                        == #[trigger] self.frame_buffer@[k][c],
            decreases count - i,
        {
            let pixel = self.frame_buffer[i];
            bytes.push(pixel[0]);
            bytes.push(pixel[1]);
            bytes.push(pixel[2]);
            bytes.push(pixel[3]);
            i += 1;
        }
        proof {
            assert forall|x: int, y: int, c: int| self@.contains(x, y) && 0 <= c < 4 implies bytes@[4
                * (y * self@.width + x) + c] == #[trigger] self@.at(x, y)[c] by {
                lemma_cell_index(self.width as int, self.height as int, x, y);
                let k = y * self.width + x;
                assert(self@.at(x, y) == self.frame_buffer@[k]);
            }
        }
        bytes
    }

    /// Gives the grid a new size and sets every pixel to `[0, 0, 0, 0]`.
    ///
    /// Fails, and leaves the grid as it was, exactly when a dimension is not
    /// positive or the number of pixels exceeds `usize::MAX`.
    pub fn resize(&mut self, width: i32, height: i32) -> (r: Result<(), RendererError>)
        requires
            old(self).wf(),
        ensures
            final(self).wf(),
            r is Ok <==> (width > 0 && height > 0 && width * height <= usize::MAX),
            r is Err ==> r == Err::<(), RendererError>(RendererError::InvalidSize) && *final(self)
                == *old(self),
            r is Ok ==> {
                &&& final(self)@.width == width
                &&& final(self)@.height == height
                &&& forall|x: int, y: int|
                    final(self)@.contains(x, y) ==> final(self)@.at(x, y) == [0u8, 0u8, 0u8, 0u8]
            },
    {
        match Renderer::new(width, height) {
            Ok(fresh) => {
                *self = fresh;
                Ok(())
            },
            Err(e) => Err(e),
        }
    }
}

} // verus!
