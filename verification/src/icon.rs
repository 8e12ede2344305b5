use vstd::prelude::*;

verus! {

/// image's `ImageBuffer::from_raw` on the pixels, then `imageops::resize` to
/// `size` by `size` with `FilterType::Lanczos3`, then `into_raw`: a `size` by
/// `size` RGBA buffer, four bytes per pixel. `from_raw` fails only when the
/// bytes do not fit the dimensions, which `requires` rules out. `resize`
/// copies an image that already has the asked size, and gives a fresh
/// zero-filled buffer (`ImageBuffer::new`) for an image with no pixel. In
/// every other case the pixel values are left unsaid: the filter is computed
/// with `f32::sin`, whose precision std leaves to the platform, so they are
/// not stated as a function of the input.
#[verifier::external_body]
pub(crate) fn resize_rgba(pixels: &Vec<u8>, width: u32, height: u32, size: u32) -> (r: Vec<u8>)
    requires
        pixels@.len() == 4 * width * height,
        0 < size,
        4 * size * size <= usize::MAX,
    ensures
        r@.len() == 4 * size * size,
        width == size && height == size ==> r@ == pixels@,
        width == 0 || height == 0 ==> r@ == Seq::new((4 * size * size) as nat, |i: int| 0u8),
{
    let image = image::RgbaImage::from_raw(width, height, pixels.clone()).unwrap();
    image::imageops::resize(&image, size, size, image::imageops::FilterType::Lanczos3).into_raw()
}

/// The three sizes of a window icon, 16, 32 and 64 pixels square, resized
/// with the Lanczos3 filter from an RGBA image of `width` by `height`
/// pixels: RGBA buffers of 16 * 16, 32 * 32 and 64 * 64 pixels. A size that
/// the image already has is the image itself; an image with no pixel gives
/// blank (all zero) icons.
pub fn icon_sizes(pixels: &Vec<u8>, width: u32, height: u32) -> (r: (Vec<u8>, Vec<u8>, Vec<u8>))
    requires
        pixels@.len() == 4 * width * height,
    ensures
        r.0@.len() == 1024,
        r.1@.len() == 4096,
        r.2@.len() == 16384,
        width == 16 && height == 16 ==> r.0@ == pixels@,
        width == 32 && height == 32 ==> r.1@ == pixels@,
        width == 64 && height == 64 ==> r.2@ == pixels@,
        width == 0 || height == 0 ==> {
            &&& r.0@ == Seq::new(1024, |i: int| 0u8)
            &&& r.1@ == Seq::new(4096, |i: int| 0u8)
            &&& r.2@ == Seq::new(16384, |i: int| 0u8)
        },
{
    let small = resize_rgba(pixels, width, height, 16);
    let medium = resize_rgba(pixels, width, height, 32);
    let big = resize_rgba(pixels, width, height, 64);
    (small, medium, big)
}

} // verus!
