//! Alpha compositing of one color over another, as the `image` crate does it.

use vstd::prelude::*;
use crate::command::Color;

verus! {

/// The channels `[r, g, b, a]` that `image` leaves in a destination pixel
/// after blending a source pixel onto it, as a function of both pixels'
/// channels.
pub uninterp spec fn image_rgba_blend(dst: Seq<u8>, src: Seq<u8>) -> Seq<u8>;

/// The channels of a color in the order `r, g, b, a`.
pub open spec fn channels(c: Color) -> Seq<u8> {
    seq![c.r, c.g, c.b, c.a]
}

/// The color whose channels are the first four items of `s`.
pub open spec fn color_of(s: Seq<u8>) -> Color {
    Color { r: s[0], g: s[1], b: s[2], a: s[3] }
}

/// The result of compositing `src` over `dst`. A transparent source leaves
/// the destination as it is, an opaque source replaces it, and for every
/// alpha in between the result is the one that `image` computes.
pub open spec fn over(dst: Color, src: Color) -> Color {
    if src.a == 0 {
        dst
    } else if src.a == 255 {
        src
    } else {
        color_of(image_rgba_blend(channels(dst), channels(src)))
    }
}

/// Calls `image::Pixel::blend` on `image::Rgba<u8>` pixels.
///
/// Trusted: the result is the blended destination pixel, which depends on
/// the two pixels alone. `image` returns the destination untouched when the
/// source alpha is 0 and copies the source when the source alpha is 255.
#[verifier::external_body]
fn blend_rgba(dst: [u8; 4], src: [u8; 4]) -> (out: [u8; 4])
    ensures
        out@ == image_rgba_blend(dst@, src@),
        src@[3] == 0 ==> out@ == dst@,
        src@[3] == 255 ==> out@ == src@,
{
    let mut pixel = image::Rgba(dst);
    image::Pixel::blend(&mut pixel, &image::Rgba(src));
    pixel.0
}

/// Composites `src` over `dst`.
pub fn blend(dst: Color, src: Color) -> (out: Color)
    ensures
        out == over(dst, src),
{
    let d: [u8; 4] = [dst.r, dst.g, dst.b, dst.a];
    let s: [u8; 4] = [src.r, src.g, src.b, src.a];
    let o: [u8; 4] = blend_rgba(d, s);
    proof {
        assert(d@ =~= channels(dst));
        assert(s@ =~= channels(src));
    }
    Color { r: o[0], g: o[1], b: o[2], a: o[3] }
}

/// An opaque source replaces the destination.
pub proof fn lemma_opaque_replaces(dst: Color, src: Color)
    requires
        src.a == 255,
    ensures
        over(dst, src) == src,
{
}

/// A fully transparent source leaves the destination as it was.
pub proof fn lemma_transparent_keeps(dst: Color, src: Color)
    requires
        src.a == 0,
    ensures
        over(dst, src) == dst,
{
}

} // verus!
