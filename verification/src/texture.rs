//! Decoded images as the engine reads them: a size and, for an image held as
//! 8-bit RGBA, a colour per texel. An image held in any other format has a
//! size but shows no texel.

use image::DynamicImage;
use vstd::prelude::*;

verus! {

/// Declares `image::DynamicImage`, a decoded image of any pixel format, as
/// a type whose inside is not looked into: what is read of an image is read
/// through `width_of`, `height_of` and `texel_of`.
#[verifier::external_type_specification]
#[verifier::external_body]
pub struct ExDynamicImage(image::DynamicImage);

/// The number of texel columns of an image, as `DynamicImage::width` reports
/// it.
pub uninterp spec fn texture_width(texture: DynamicImage) -> u32;

/// The number of texel rows of an image, as `DynamicImage::height` reports it.
pub uninterp spec fn texture_height(texture: DynamicImage) -> u32;

/// Whether an image is held as 8-bit RGBA: whether `DynamicImage::as_rgba8`
/// gives its buffer.
pub uninterp spec fn texture_is_rgba8(texture: DynamicImage) -> bool;

/// The four bytes of each texel of an image held as 8-bit RGBA, keyed by
/// `(column, row)`, as `ImageBuffer::get_pixel` reads them from its buffer.
pub uninterp spec fn texture_texels(texture: DynamicImage) -> Map<(int, int), [u8; 4]>;

/// The colour of the texel in column `x` and row `y`.
pub open spec fn texel(texture: DynamicImage, x: int, y: int) -> [u8; 4] {
    texture_texels(texture)[(x, y)]
}

/// Calls `image::DynamicImage::width`. Trusted: the result is the image's
/// width, which is the same on every call for the same image.
#[verifier::external_body]
pub(crate) fn width_of(texture: &DynamicImage) -> (w: u32)
    ensures
        w == texture_width(*texture),
{
    texture.width()
}

/// Calls `image::DynamicImage::height`. Trusted: the result is the image's
/// height, which is the same on every call for the same image.
#[verifier::external_body]
pub(crate) fn height_of(texture: &DynamicImage) -> (h: u32)
    ensures
        h == texture_height(*texture),
{
    texture.height()
}

/// Calls `image::DynamicImage::as_rgba8` and, on the buffer it gives,
/// `image::ImageBuffer::get_pixel`, which panics outside the image. Trusted:
/// there is a result exactly when the image is held as 8-bit RGBA, and it is
/// then the texel's four stored bytes, the same on every call for the same
/// image and coordinates. No pixel is converted, so an image of any other
/// format, whatever its samples, gives no result.
#[verifier::external_body]
pub(crate) fn texel_of(texture: &DynamicImage, x: u32, y: u32) -> (c: Option<[u8; 4]>)
    requires
        x < texture_width(*texture),
        y < texture_height(*texture),
    ensures
        c is Some <==> texture_is_rgba8(*texture),
        c is Some ==> c->Some_0 == texture_texels(*texture)[(x as int, y as int)],
{
    match texture.as_rgba8() {
        Some(image) => Some(image.get_pixel(x, y).0),
        None => None,
    }
}

/// Which entry of a table of `count` textures a cell of value `value`
/// selects: entry `value - 1`, the first entry when that is no entry of the
/// table, and none when the table is empty.
pub open spec fn texture_index(value: u32, count: int) -> Option<int> {
    if count <= 0 {
        None
    } else if value == 0 || value - 1 >= count {
        Some(0)
    } else {
        Some(value - 1)
    }
}

/// A texel coordinate wrapped into a texture `size` texels wide by masking
/// with `size - 1`.
pub open spec fn wrap_texel(coord: u32, size: u32) -> u32 {
    coord & ((size - 1) as u32)
}

/// Whether `n` is a power of two.
pub open spec fn is_power_of_two(n: u32) -> bool {
    n > 0 && n & ((n - 1) as u32) == 0
}

/// A wrapped coordinate names a texel of the texture, whatever the size.
pub proof fn lemma_wrap_texel_in_range(coord: u32, size: u32)
    requires
        size > 0,
    ensures
        wrap_texel(coord, size) < size,
{
    let mask: u32 = (size - 1) as u32;
    assert(coord & mask <= mask) by (bit_vector);
}

/// In a texture whose size is a power of two, wrapping takes a coordinate to
/// its remainder by the size: the coordinate `size` itself wraps to 0.
pub proof fn lemma_wrap_texel_power_of_two(coord: u32, size: u32)
    requires
        is_power_of_two(size),
    ensures
        wrap_texel(coord, size) == coord % size,
        wrap_texel(size, size) == 0,
    decreases coord,
{
    let mask: u32 = (size - 1) as u32;
    if coord < size {
        assert(coord & mask == coord) by (bit_vector)
            requires
                coord < size,
                size & mask == 0,
                mask == size - 1,
        ;
        vstd::arithmetic::div_mod::lemma_small_mod(coord as nat, size as nat);
    } else {
        let less: u32 = (coord - size) as u32;
        assert(coord & mask == less & mask) by (bit_vector)
            requires
                coord >= size,
                less == coord - size,
                size & mask == 0,
                mask == size - 1,
        ;
        lemma_wrap_texel_power_of_two(less, size);
        vstd::arithmetic::div_mod::lemma_mod_sub_multiples_vanish(coord as int, size as int);
    }
}

/// Selects the texture for a cell value from a table of `count` textures.
pub fn select_texture(value: u32, count: usize) -> (id: Option<usize>)
    ensures
        match id {
            Some(i) => texture_index(value, count as int) == Some(i as int) && i < count,
            None => texture_index(value, count as int) is None,
        },
{
    if count == 0 {
        None
    } else if value == 0 || (value - 1) as u64 >= count as u64 {
        Some(0)
    } else {
        Some((value - 1) as usize)
    }
}

/// Wraps a texel coordinate into a texture `size` texels wide.
pub fn wrap(coord: u32, size: u32) -> (r: u32)
    requires
        size > 0,
    ensures
        r == wrap_texel(coord, size),
        r < size,
{
    proof {
        lemma_wrap_texel_in_range(coord, size);
    }
    coord & (size - 1)
}

/// Which entry of a table of `count` textures the index `id` selects: entry
/// `id`, the first entry when the table has no such entry, and none when the
/// table is empty.
pub open spec fn texture_or_default(id: int, count: int) -> Option<int> {
    if count <= 0 {
        None
    } else if id < 0 || id >= count {
        Some(0)
    } else {
        Some(id)
    }
}

/// Selects the texture for an index into a table of `count` textures.
pub fn select_or_default(id: usize, count: usize) -> (r: Option<usize>)
    ensures
        match r {
            Some(i) => texture_or_default(id as int, count as int) == Some(i as int) && i < count,
            None => texture_or_default(id as int, count as int) is None,
        },
{
    if count == 0 {
        None
    } else if id >= count {
        Some(0)
    } else {
        Some(id)
    }
}

} // verus!
