//! The avatar: decoded from the fetched bytes, cut to the centred square and
//! scaled to the size at which the terminal shows it.
use vstd::prelude::*;

use crate::error::CheckGitError;
use crate::picture::{
    crop_picture, decode_picture, is_uncut, resize_picture, Framing, Picture, ResizeFilter,
};

verus! {

/// Side, in pixels, of the avatar as fetched and as kept.
pub const AVATAR_SIZE: u32 = 460;

/// The largest square centred in a `width` by `height` picture, as
/// (left, top, side): the side is the smaller dimension, and the margins on
/// either side of the square are equal, the odd pixel going right or down.
pub open spec fn center_square_spec(width: u32, height: u32) -> (u32, u32, u32) {
    let size = if width <= height { width } else { height };
    (((width - size) / 2) as u32, ((height - size) / 2) as u32, size)
}

/// The centred square of a `width` by `height` picture.
pub fn center_square(width: u32, height: u32) -> (square: (u32, u32, u32))
    ensures
        square == center_square_spec(width, height),
{
    let size = if width <= height { width } else { height };
    ((width - size) / 2, (height - size) / 2, size)
}

/// The centred square lies inside the picture, and its margins differ by at
/// most one pixel on each axis.
pub proof fn lemma_center_square_inside(width: u32, height: u32)
    ensures
        ({
            let (x, y, size) = center_square_spec(width, height);
            &&& x + size <= width
            &&& y + size <= height
            &&& size == width || size == height
            &&& 0 <= (width - size - x) - x <= 1
            &&& 0 <= (height - size - y) - y <= 1
        }),
{
}

/// How the avatar is framed from a decoded picture: the centred square cut
/// out and scaled to `AVATAR_SIZE` with a Lanczos filter (to 1 by 1 where the
/// picture has no pixels).
pub open spec fn framed_avatar_spec(decoded: Framing) -> Framing {
    let (x, y, size) = center_square_spec(decoded.width, decoded.height);
    Framing {
        source: decoded.source,
        cut: (x, y, size, size),
        filter: Some(ResizeFilter::Lanczos3),
        width: if size > 0 { AVATAR_SIZE } else { 1 },
        height: if size > 0 { AVATAR_SIZE } else { 1 },
    }
}

/// The avatar is cut as the largest square centred in the decoded picture:
/// its side is the smaller dimension, the margins left and right (top and
/// bottom) split the rest evenly, the odd pixel going right (down); a square
/// picture is kept whole. The square is scaled to `AVATAR_SIZE` with a
/// Lanczos filter, and the decoded size is kept.
pub proof fn lemma_framed_avatar(decoded: Framing)
    ensures
        ({
            let f = framed_avatar_spec(decoded);
            let (w, h) = (decoded.width, decoded.height);
            let side = f.cut.2;
            &&& f.source == decoded.source
            &&& f.cut.3 == side
            &&& side <= w && side <= h
            &&& (side == w || side == h)
            &&& f.cut.0 == (w - side) / 2
            &&& f.cut.1 == (h - side) / 2
            &&& w == h ==> f.cut == (0u32, 0u32, w, w)
            &&& f.filter == Some(ResizeFilter::Lanczos3)
            &&& side > 0 ==> f.width == AVATAR_SIZE && f.height == AVATAR_SIZE
            &&& side == 0 ==> f.width == 1 && f.height == 1
        }),
{
}

/// How a freshly decoded picture of the given size is recorded.
pub open spec fn uncut_framing(source: (u32, u32)) -> Framing {
    Framing {
        source,
        cut: (0, 0, source.0, source.1),
        filter: None,
        width: source.0,
        height: source.1,
    }
}

/// Frames a decoded picture as the avatar.
pub fn frame_avatar(decoded: &Picture) -> (avatar: Picture)
    requires
        is_uncut(decoded@),
    ensures
        avatar@ == framed_avatar_spec(decoded@),
        avatar.origin() == decoded.origin(),
        avatar@.source == decoded@.source,
        avatar@.cut.2 == avatar@.cut.3,
        avatar@.cut.2 <= decoded@.width && avatar@.cut.2 <= decoded@.height,
        avatar@.cut.2 == decoded@.width || avatar@.cut.2 == decoded@.height,
        avatar@.cut.0 == (decoded@.width - avatar@.cut.2) / 2,
        avatar@.cut.1 == (decoded@.height - avatar@.cut.2) / 2,
        avatar@.filter == Some(ResizeFilter::Lanczos3),
        avatar@.cut.2 > 0 ==> avatar@.width == AVATAR_SIZE && avatar@.height == AVATAR_SIZE,
{
    proof {
        lemma_framed_avatar(decoded@);
    }
    let framing = decoded.framing();
    let (x, y, size) = center_square(framing.width, framing.height);
    let square = crop_picture(decoded, x, y, size, size);
    resize_picture(&square, AVATAR_SIZE, ResizeFilter::Lanczos3)
}

/// The avatar as the profile keeps it: the bytes decoded, then framed by
/// `frame_avatar`. It fails, with the decoder's error text as an image
/// error, only where the bytes do not decode.
pub fn process_avatar(bytes: &[u8]) -> (avatar: Result<Picture, CheckGitError>)
    ensures
        match avatar {
            Ok(a) => {
                &&& a.origin() == bytes@
                &&& a@ == framed_avatar_spec(uncut_framing(a@.source))
                &&& a@.cut.2 == a@.cut.3
                &&& a@.cut.2 == if a@.source.0 <= a@.source.1 { a@.source.0 } else { a@.source.1 }
                &&& a@.cut.0 == (a@.source.0 - a@.cut.2) / 2
                &&& a@.cut.1 == (a@.source.1 - a@.cut.2) / 2
                &&& a@.filter == Some(ResizeFilter::Lanczos3)
                &&& a@.cut.2 > 0 ==> a@.width == AVATAR_SIZE && a@.height == AVATAR_SIZE
            },
            Err(e) => e is ImageError,
        },
{
    match decode_picture(bytes) {
        Ok(decoded) => {
            assert(decoded@ == uncut_framing(decoded@.source));
            Ok(frame_avatar(&decoded))
        },
        Err(text) => Err(CheckGitError::ImageError(text)),
    }
}

} // verus!
