//! The tray icon's pixels: a PNG (or any format the `image` crate knows)
//! decoded to RGBA, or a single transparent pixel where it cannot be.
use vstd::prelude::*;

verus! {

/// An RGBA image: `width * height` pixels of four bytes each, row by row.
#[derive(Debug, Clone)]
pub struct TrayImage {
    pub pixels: Vec<u8>,
    pub width: u32,
    pub height: u32,
}

/// What `image::load_from_memory(bytes)` followed by `to_rgba8` gives: the
/// RGBA bytes, width and height, or nothing where the bytes are no image it
/// can decode. Besides the bytes, the crate consults its process-wide
/// decoding and format-detection hooks; this program registers none, so
/// here the result is a function of the bytes alone.
pub uninterp spec fn decoded_rgba(bytes: Seq<u8>) -> Option<(Seq<u8>, u32, u32)>;

/// Decodes `bytes` with `image::load_from_memory`, as RGBA. The result is
/// a function of the bytes alone; a decoded image holds four bytes for each
/// of its `w * h` pixels (the crate allocates exactly that and converts into
/// a fresh `w` by `h` buffer). Which bytes decode, and to what pixels, is
/// left to the crate and unstated beyond the name `decoded_rgba`.
#[verifier::external_body]
fn decode_rgba(bytes: &[u8]) -> (r: Option<(Vec<u8>, u32, u32)>)
    ensures
        match r {
            Some((p, w, h)) => decoded_rgba(bytes@) == Some((p@, w, h)) && p@.len() == 4 * w * h,
            None => decoded_rgba(bytes@) is None,
        },
{
    match image::load_from_memory(bytes) {
        Ok(img) => {
            let rgba = img.to_rgba8();
            let (w, h) = rgba.dimensions();
            Some((rgba.into_vec(), w, h))
        },
        Err(_) => None,
    }
}

/// One transparent pixel.
pub open spec fn is_blank(t: TrayImage) -> bool {
    t.width == 1 && t.height == 1 && t.pixels@ == seq![0u8, 0u8, 0u8, 0u8]
}

/// The blank icon: one transparent pixel.
pub fn blank_icon() -> (r: TrayImage)
    ensures
        is_blank(r),
{
    let mut pixels: Vec<u8> = Vec::new();
    pixels.push(0);
    pixels.push(0);
    pixels.push(0);
    pixels.push(0);
    assert(pixels@ =~= seq![0u8, 0u8, 0u8, 0u8]);
    TrayImage { pixels, width: 1, height: 1 }
}

/// The icon from a decoding result: the decoded image, or the blank icon
/// where decoding failed.
pub fn icon_from_decoded(decoded: Option<(Vec<u8>, u32, u32)>) -> (r: TrayImage)
    ensures
        (match decoded {
            Some((p, w, h)) => p@.len() == 4 * w * h,
            None => true,
        }) ==> r.pixels@.len() == 4 * r.width * r.height,
        match decoded {
            Some((p, w, h)) => r.pixels@ == p@ && r.width == w && r.height == h,
            None => is_blank(r),
        },
{
    match decoded {
        Some((pixels, width, height)) => TrayImage { pixels, width, height },
        None => blank_icon(),
    }
}

/// The tray icon from the icon file's bytes (none: the file could not be
/// read): the decoded image, or the blank icon.
pub fn load_tray_png(file: Option<&[u8]>) -> (r: TrayImage)
    ensures
        r.pixels@.len() == 4 * r.width * r.height,
        match file {
            Some(bytes) => match decoded_rgba(bytes@) {
                Some((p, w, h)) => r.pixels@ == p && r.width == w && r.height == h,
                None => is_blank(r),
            },
            None => is_blank(r),
        },
{
    match file {
        Some(bytes) => {
            let d = decode_rgba(bytes);
            icon_from_decoded(d)
        },
        None => blank_icon(),
    }
}

} // verus!
