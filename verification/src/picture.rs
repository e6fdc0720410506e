//! Pictures handled through the `image` crate. A picture's pixels are opaque
//! here; what the library keeps of it, as plain values, is how it was made:
//! the size it was decoded at, the rectangle cut from it, the filter it was
//! scaled with, and its size now. Only the functions of this module, which
//! make the calls into `image`, set those values.
use vstd::prelude::*;

verus! {

#[verifier::external_type_specification]
#[verifier::external_body]
pub struct ExDynamicImage(image::DynamicImage);

/// The resampling filters that scaling can use.
#[derive(Debug, Clone, Copy, PartialEq, Eq, Structural)]
pub enum ResizeFilter {
    Nearest,
    Triangle,
    CatmullRom,
    Gaussian,
    Lanczos3,
}

/// How a picture was made: `source` is the size it was decoded at, `cut`
/// the rectangle (left, top, width, height) taken from the decoded picture,
/// `filter` the filter it was last scaled with, if any, and `width` by
/// `height` its size now.
#[derive(Debug, Clone, Copy)]
pub struct Framing {
    pub source: (u32, u32),
    pub cut: (u32, u32, u32, u32),
    pub filter: Option<ResizeFilter>,
    pub width: u32,
    pub height: u32,
}

/// A decoded picture together with how it was made, and the bytes it was
/// decoded from.
pub struct Picture {
    image: image::DynamicImage,
    framing: Framing,
    origin: Ghost<Seq<u8>>,
}

impl View for Picture {
    type V = Framing;

    closed spec fn view(&self) -> Framing {
        self.framing
    }
}

impl Picture {
    /// The bytes the picture was decoded from.
    pub closed spec fn origin(&self) -> Seq<u8> {
        self.origin@
    }

    /// How the picture was made.
    pub fn framing(&self) -> (framing: Framing)
        ensures
            framing == self@,
    {
        self.framing
    }

    /// The pixels, for drawing or further processing.
    pub fn into_image(self) -> image::DynamicImage {
        self.image
    }
}

/// A freshly decoded picture: its size is the size it was decoded at, it is
/// its own whole cut, and it has not been scaled.
pub open spec fn is_uncut(framing: Framing) -> bool {
    &&& framing.source == (framing.width, framing.height)
    &&& framing.cut == (0u32, 0u32, framing.width, framing.height)
    &&& framing.filter is None
}

/// Decodes a picture with `image::load_from_memory`, the format guessed from
/// the bytes, and records its width and height as `DynamicImage::width` and
/// `height` report them. Claims only that a decoded picture is recorded as
/// uncut and as decoded from `bytes`. Whether given bytes decode, and to what, is not claimed: besides
/// the bytes it depends on the format-detection and decoding hooks that any
/// code in the process can register with `image::hooks`.
#[verifier::external_body]
pub fn decode_picture(bytes: &[u8]) -> (decoded: Result<Picture, String>)
    ensures
        decoded matches Ok(p) ==> is_uncut(p@) && p.origin() == bytes@,
{
    match image::load_from_memory(bytes) {
        Ok(image) => {
            let (width, height) = (image.width(), image.height());
            let cut = (0, 0, width, height);
            let framing = Framing { source: (width, height), cut, filter: None, width, height };
            Ok(Picture { image, framing, origin: Ghost(bytes@) })
        },
        Err(e) => Err(e.to_string()),
    }
}

/// Cuts a rectangle out of an uncut picture with `DynamicImage::crop_imm`.
/// Claims that a rectangle inside the picture comes out at exactly its own
/// size (`crop_imm` only clamps rectangles that reach past the edges), and
/// records where it was cut.
#[verifier::external_body]
pub fn crop_picture(p: &Picture, left: u32, top: u32, width: u32, height: u32) -> (cut: Picture)
    requires
        is_uncut(p@),
        left + width <= p@.width,
        top + height <= p@.height,
    ensures
        cut@ == (Framing {
            source: p@.source,
            cut: (left, top, width, height),
            filter: None,
            width,
            height,
        }),
        cut.origin() == p.origin(),
{
    let image = p.image.crop_imm(left, top, width, height);
    let (w, h) = (image.width(), image.height());
    let framing = Framing { cut: (left, top, width, height), width: w, height: h, ..p.framing };
    Picture { image, framing, origin: p.origin }
}

/// Scales a square picture to `size` by `size` with `DynamicImage::resize`
/// and the given filter. Claims the size that `resize` gives a square: the
/// target itself, except that a picture with no pixels comes out 1 by 1
/// (its scale factor is not a number, and `resize` keeps each side at least 1).
#[verifier::external_body]
pub fn resize_picture(p: &Picture, size: u32, filter: ResizeFilter) -> (scaled: Picture)
    requires
        p@.width == p@.height,
        size > 0,
    ensures
        scaled@ == (Framing {
            filter: Some(filter),
            width: if p@.width > 0 { size } else { 1 },
            height: if p@.width > 0 { size } else { 1 },
            ..p@
        }),
        scaled.origin() == p.origin(),
{
    let kind = match filter {
        ResizeFilter::Nearest => image::imageops::FilterType::Nearest,
        ResizeFilter::Triangle => image::imageops::FilterType::Triangle,
        ResizeFilter::CatmullRom => image::imageops::FilterType::CatmullRom,
        ResizeFilter::Gaussian => image::imageops::FilterType::Gaussian,
        ResizeFilter::Lanczos3 => image::imageops::FilterType::Lanczos3,
    };
    let image = p.image.resize(size, size, kind);
    let framing = Framing { filter: Some(filter), width: image.width(), height: image.height(), ..p.framing };
    Picture { image, framing, origin: p.origin }
}

} // verus!
