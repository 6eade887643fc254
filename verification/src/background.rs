//! Background composition: a plate beneath a key's artwork, or a tint over it.
//!
//! The plate's shape, a rounded rectangle with an antialiased edge, is given
//! per pixel by `cover`: `None` where the plate does not reach, else the alpha
//! the plate has at that pixel. What is done with those alphas is decided here.

use vstd::prelude::*;

use crate::pixels::{blend_over, blended, lemma_index_injective, pixel_index, rgba_blend, Rgba, RgbaImage};

verus! {

/// Whether `after` is what plating `before` at `(x, y)` gives: the artwork
/// composited over the plate colour at the alpha `cover` gives there, or the
/// artwork unchanged where the plate does not reach.
pub open spec fn plated<C: Fn(u32, u32) -> Option<u8>>(
    cover: C,
    colour: Rgba,
    x: u32,
    y: u32,
    before: Rgba,
    after: Rgba,
) -> bool {
    exists|out: Option<u8>| #[trigger] call_ensures(cover, (x, y), out) && after == match out {
        None => before,
        Some(a) => blended(colour.with_alpha(a), before),
    }
}

/// Whether `after` is what tinting `before` at `(x, y)` gives: the tint colour
/// at the alpha `cover` gives there composited over the pixel, or the pixel
/// unchanged where the plate does not reach.
pub open spec fn tinted<C: Fn(u32, u32) -> Option<u8>>(
    cover: C,
    colour: Rgba,
    x: u32,
    y: u32,
    before: Rgba,
    after: Rgba,
) -> bool {
    exists|out: Option<u8>| #[trigger] call_ensures(cover, (x, y), out) && after == match out {
        None => before,
        Some(a) => blended(before, colour.with_alpha(a)),
    }
}

/// Whether a plate or tint of `colour` draws anything: a fully transparent
/// colour draws nothing, so an unset background costs nothing.
pub fn colour_draws(colour: Rgba) -> (r: bool)
    ensures
        r == (colour.a != 0),
{
    colour.a != 0
}

/// Composites `icon` over a plate of `colour`, making the plate the ground.
///
/// The plate goes under the artwork: a pixel the plate reaches becomes the
/// artwork composited over the plate colour, so transparent artwork shows the
/// plate and opaque artwork survives intact. A fully transparent colour draws
/// nothing, so an unset background costs nothing.
pub fn apply_plate<C>(icon: &mut RgbaImage, colour: Rgba, cover: &C)
    where C: Fn(u32, u32) -> Option<u8>,
    requires
        old(icon).wf(),
        forall|x: u32, y: u32| cover.requires((x, y)),
    ensures
        final(icon).wf(),
        final(icon).spec_width() == old(icon).spec_width(),
        final(icon).spec_height() == old(icon).spec_height(),
        colour.a == 0 ==> final(icon).spec_pixels() == old(icon).spec_pixels(),
        colour.a != 0 ==> forall|x: nat, y: nat| #[trigger] old(icon).contains(x, y) ==>
            plated(*cover, colour, x as u32, y as u32, old(icon).at(x, y), final(icon).at(x, y)),
        forall|x: nat, y: nat| #[trigger] old(icon).contains(x, y) && old(icon).at(x, y).a == 255
            ==> final(icon).at(x, y) == old(icon).at(x, y),
{
    if !colour_draws(colour) {
        return;
    }
    let ghost start = *icon;
    let width = icon.width();
    let height = icon.height();
    let mut y: u32 = 0;
    while y < height
        invariant
            icon.wf(),
            icon.spec_width() == width == start.spec_width(),
            icon.spec_height() == height == start.spec_height(),
            y <= height,
            forall|x: u32, y: u32| cover.requires((x, y)),
            forall|xx: nat, yy: nat| #[trigger] start.contains(xx, yy) ==> {
                if yy < y {
                    &&& plated(*cover, colour, xx as u32, yy as u32, start.at(xx, yy), icon.at(xx, yy))
                    &&& (start.at(xx, yy).a == 255 ==> icon.at(xx, yy) == start.at(xx, yy))
                } else {
                    icon.at(xx, yy) == start.at(xx, yy)
                }
            },
        decreases height - y,
    {
        let mut x: u32 = 0;
        while x < width
            invariant
                icon.wf(),
                icon.spec_width() == width == start.spec_width(),
                icon.spec_height() == height == start.spec_height(),
                y < height,
                x <= width,
                forall|x: u32, y: u32| cover.requires((x, y)),
                forall|xx: nat, yy: nat| #[trigger] start.contains(xx, yy) ==> {
                    if yy < y || (yy == y && xx < x) {
                        &&& plated(*cover, colour, xx as u32, yy as u32, start.at(xx, yy), icon.at(xx, yy))
                        &&& (start.at(xx, yy).a == 255 ==> icon.at(xx, yy) == start.at(xx, yy))
                    } else {
                        icon.at(xx, yy) == start.at(xx, yy)
                    }
                },
            decreases width - x,
        {
            let below = icon.get_pixel(x, y);
            let out = cover(x, y);
            assert(call_ensures(*cover, (x, y), out));
            let ghost before = *icon;
            proof {
                before.lemma_at(x as nat, y as nat);
            }
            match out {
                None => {},
                Some(a) => {
                    let ground = colour.at_alpha(a);
                    let composed = blend_over(ground, below);
                    icon.put_pixel(x, y, composed);
                },
            }
            assert forall|xx: nat, yy: nat| #[trigger] start.contains(xx, yy) implies {
                if yy < y || (yy == y && xx < x + 1) {
                    &&& plated(*cover, colour, xx as u32, yy as u32, start.at(xx, yy), icon.at(xx, yy))
                    &&& (start.at(xx, yy).a == 255 ==> icon.at(xx, yy) == start.at(xx, yy))
                } else {
                    icon.at(xx, yy) == start.at(xx, yy)
                }
            } by {
                lemma_index_injective(width as nat, xx, yy, x as nat, y as nat);
                before.lemma_at(xx, yy);
                assert(before.contains(xx, yy));
                if xx == x && yy == y {
                    assert(before.at(xx, yy) == start.at(xx, yy));
                } else {
                    assert(icon.at(xx, yy) == before.at(xx, yy));
                }
            }
            x = x + 1;
        }
        y = y + 1;
    }
}

/// Blends a tint of `colour` over an already composed image.
///
/// The counterpart of `apply_plate` for an image with no transparency left to
/// show a ground through: a pixel the plate reaches gets the tint composited
/// over it. A fully transparent colour draws nothing.
pub fn apply_tint_plate<C>(image: &mut RgbaImage, colour: Rgba, cover: &C)
    where C: Fn(u32, u32) -> Option<u8>,
    requires
        old(image).wf(),
        forall|x: u32, y: u32| cover.requires((x, y)),
    ensures
        final(image).wf(),
        final(image).spec_width() == old(image).spec_width(),
        final(image).spec_height() == old(image).spec_height(),
        colour.a == 0 ==> final(image).spec_pixels() == old(image).spec_pixels(),
        colour.a != 0 ==> forall|x: nat, y: nat| #[trigger] old(image).contains(x, y) ==>
            tinted(*cover, colour, x as u32, y as u32, old(image).at(x, y), final(image).at(x, y)),
{
    if !colour_draws(colour) {
        return;
    }
    let ghost start = *image;
    let width = image.width();
    let height = image.height();
    let mut y: u32 = 0;
    while y < height
        invariant
            image.wf(),
            image.spec_width() == width == start.spec_width(),
            image.spec_height() == height == start.spec_height(),
            y <= height,
            forall|x: u32, y: u32| cover.requires((x, y)),
            forall|xx: nat, yy: nat| #[trigger] start.contains(xx, yy) ==> {
                if yy < y {
                    tinted(*cover, colour, xx as u32, yy as u32, start.at(xx, yy), image.at(xx, yy))
                } else {
                    image.at(xx, yy) == start.at(xx, yy)
                }
            },
        decreases height - y,
    {
        let mut x: u32 = 0;
        while x < width
            invariant
                image.wf(),
                image.spec_width() == width == start.spec_width(),
                image.spec_height() == height == start.spec_height(),
                y < height,
                x <= width,
                forall|x: u32, y: u32| cover.requires((x, y)),
                forall|xx: nat, yy: nat| #[trigger] start.contains(xx, yy) ==> {
                    if yy < y || (yy == y && xx < x) {
                        tinted(*cover, colour, xx as u32, yy as u32, start.at(xx, yy), image.at(xx, yy))
                    } else {
                        image.at(xx, yy) == start.at(xx, yy)
                    }
                },
            decreases width - x,
        {
            let below = image.get_pixel(x, y);
            let out = cover(x, y);
            assert(call_ensures(*cover, (x, y), out));
            let ghost before = *image;
            proof {
                before.lemma_at(x as nat, y as nat);
            }
            match out {
                None => {},
                Some(a) => {
                    let over = colour.at_alpha(a);
                    let composed = blend_over(below, over);
                    image.put_pixel(x, y, composed);
                },
            }
            assert forall|xx: nat, yy: nat| #[trigger] start.contains(xx, yy) implies {
                if yy < y || (yy == y && xx < x + 1) {
                    tinted(*cover, colour, xx as u32, yy as u32, start.at(xx, yy), image.at(xx, yy))
                } else {
                    image.at(xx, yy) == start.at(xx, yy)
                }
            } by {
                lemma_index_injective(width as nat, xx, yy, x as nat, y as nat);
                before.lemma_at(xx, yy);
                assert(before.contains(xx, yy));
                if xx == x && yy == y {
                    assert(before.at(xx, yy) == start.at(xx, yy));
                } else {
                    assert(image.at(xx, yy) == before.at(xx, yy));
                }
            }
            x = x + 1;
        }
        y = y + 1;
    }
}

/// Where the plate reaches fully transparent artwork, the plate itself shows:
/// the pixel becomes the plate colour at the plate's alpha there.
pub proof fn lemma_transparent_artwork_shows_the_plate<C: Fn(u32, u32) -> Option<u8>>(
    cover: C,
    colour: Rgba,
    x: u32,
    y: u32,
    before: Rgba,
    after: Rgba,
    a: u8,
)
    requires
        plated(cover, colour, x, y, before, after),
        before.a == 0,
        forall|out: Option<u8>| call_ensures(cover, (x, y), out) ==> out == Some(a),
    ensures
        after == colour.with_alpha(a),
{
    let out = choose|out: Option<u8>| #[trigger] call_ensures(cover, (x, y), out) && after == match out {
        None => before,
        Some(a) => blended(colour.with_alpha(a), before),
    };
}

/// Where the tint's alpha is zero, the pixel is left as it was.
pub proof fn lemma_zero_alpha_tint_keeps_the_pixel<C: Fn(u32, u32) -> Option<u8>>(
    cover: C,
    colour: Rgba,
    x: u32,
    y: u32,
    before: Rgba,
    after: Rgba,
)
    requires
        tinted(cover, colour, x, y, before, after),
        forall|out: Option<u8>| call_ensures(cover, (x, y), out) ==> (out is None || out == Some(0u8)),
    ensures
        after == before,
{
    let out = choose|out: Option<u8>| #[trigger] call_ensures(cover, (x, y), out) && after == match out {
        None => before,
        Some(a) => blended(before, colour.with_alpha(a)),
    };
}

/// The plate goes under the artwork. Where the plate reaches a pixel at
/// alpha `a`, the artwork is composited over the plate colour at that alpha
/// by the `image` crate's source-over blend, with the artwork above and the
/// plate below: transparent artwork shows the plate, opaque artwork is kept,
/// and partly transparent artwork is blended over the plate. Where the plate
/// does not reach, the pixel is left as it was.
pub proof fn lemma_plate_goes_under_the_artwork<C: Fn(u32, u32) -> Option<u8>>(
    cover: C,
    colour: Rgba,
    x: u32,
    y: u32,
    before: Rgba,
    after: Rgba,
    reach: Option<u8>,
)
    requires
        plated(cover, colour, x, y, before, after),
        forall|out: Option<u8>| call_ensures(cover, (x, y), out) ==> out == reach,
    ensures
        reach is None ==> after == before,
        reach is Some && before.a == 0 ==> after == (Rgba { r: colour.r, g: colour.g, b: colour.b, a: reach->0 }),
        reach is Some && before.a == 255 ==> after == before,
        reach is Some && 0 < before.a < 255 ==> after == rgba_blend(
            Rgba { r: colour.r, g: colour.g, b: colour.b, a: reach->0 },
            before,
        ),
{
}

/// The tint goes over the pixel in the tint colour's own channels. Where the
/// plate reaches a pixel at alpha `a`, the tint colour at that alpha is
/// composited over the pixel by the `image` crate's source-over blend: at
/// full alpha the pixel becomes the tint colour, at zero alpha it is kept,
/// and in between the tint is blended over it. Where the plate does not
/// reach, the pixel is left as it was.
pub proof fn lemma_tint_goes_over_the_pixel<C: Fn(u32, u32) -> Option<u8>>(
    cover: C,
    colour: Rgba,
    x: u32,
    y: u32,
    before: Rgba,
    after: Rgba,
    reach: Option<u8>,
)
    requires
        tinted(cover, colour, x, y, before, after),
        forall|out: Option<u8>| call_ensures(cover, (x, y), out) ==> out == reach,
    ensures
        reach is None ==> after == before,
        reach == Some(255u8) ==> after == (Rgba { r: colour.r, g: colour.g, b: colour.b, a: 255 }),
        reach == Some(0u8) ==> after == before,
        reach is Some && 0 < reach->0 < 255 ==> after == rgba_blend(
            before,
            Rgba { r: colour.r, g: colour.g, b: colour.b, a: reach->0 },
        ),
{
}

} // verus!
