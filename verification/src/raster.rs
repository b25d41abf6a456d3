//! From drawn pixels to those the kitty protocol expects.

use vstd::prelude::*;

verus! {

/// A pixel: red, green, blue and alpha.
pub type Pixel = (u8, u8, u8, u8);

/// Whether the colors of a pixel are multiplied by its alpha.
pub open spec fn premultiplied(p: Pixel) -> bool {
    p.0 <= p.3 && p.1 <= p.3 && p.2 <= p.3
}

/// What `tiny_skia::PremultipliedColorU8::demultiply` makes of a pixel.
pub uninterp spec fn demultiplied(p: Pixel) -> Pixel;

/// `tiny_skia::PremultipliedColorU8::demultiply`: divides the colors by the alpha, which stays.
/// An opaque pixel stays as it is.
#[verifier::external_body]
fn demultiply(p: Pixel) -> (r: Pixel)
    requires
        premultiplied(p),
    ensures
        r == demultiplied(p),
        r.3 == p.3,
        p.3 == 255 ==> r == p,
{
    match resvg::tiny_skia::PremultipliedColorU8::from_rgba(p.0, p.1, p.2, p.3) {
        Some(color) => {
            let color = color.demultiply();
            (color.red(), color.green(), color.blue(), color.alpha())
        },
        None => p,
    }
}

/// The pixel whose bytes start at `at`.
pub open spec fn pixel_at(data: Seq<u8>, at: int) -> Pixel {
    (data[at], data[at + 1], data[at + 2], data[at + 3])
}

/// Whether bytes are pixels with premultiplied colors.
pub open spec fn drawn(data: Seq<u8>) -> bool {
    &&& data.len() % 4 == 0
    &&& forall|i: int| 0 <= i < data.len() / 4 ==> premultiplied(#[trigger] pixel_at(data, 4 * i))
}

/// Pixel data as straight (non-premultiplied) RGBA, which the kitty protocol expects. Opaque
/// pixels stay as they are.
pub fn straight_rgba(data: &[u8]) -> (rgba: Vec<u8>)
    requires
        drawn(data@),
    ensures
        rgba@.len() == data@.len(),
        forall|i: int|
            0 <= i < data@.len() / 4 ==> {
                let pixel = #[trigger] pixel_at(rgba@, 4 * i);
                &&& pixel == demultiplied(pixel_at(data@, 4 * i))
                &&& pixel.3 == data@[4 * i + 3]
                &&& pixel.3 == 255 ==> pixel == pixel_at(data@, 4 * i)
            },
{
    let mut rgba: Vec<u8> = Vec::new();
    let mut at: usize = 0;
    let ghost mut n: int = 0;
    while at < data.len()
        invariant
            drawn(data@),
            0 <= n,
            at == 4 * n,
            at <= data@.len(),
            rgba@.len() == at,
            forall|i: int|
                0 <= i < n ==> {
                    let pixel = #[trigger] pixel_at(rgba@, 4 * i);
                    &&& pixel == demultiplied(pixel_at(data@, 4 * i))
                    &&& pixel.3 == data@[4 * i + 3]
                    &&& pixel.3 == 255 ==> pixel == pixel_at(data@, 4 * i)
                },
        decreases data@.len() - at,
    {
        assert(premultiplied(pixel_at(data@, 4 * n)));
        let (r, g, b, a) = demultiply((data[at], data[at + 1], data[at + 2], data[at + 3]));
        let ghost before = rgba@;
        rgba.push(r);
        rgba.push(g);
        rgba.push(b);
        rgba.push(a);
        proof {
            assert forall|i: int| 0 <= i < n + 1 implies {
                let pixel = #[trigger] pixel_at(rgba@, 4 * i);
                &&& pixel == demultiplied(pixel_at(data@, 4 * i))
                &&& pixel.3 == data@[4 * i + 3]
                &&& pixel.3 == 255 ==> pixel == pixel_at(data@, 4 * i)
            } by {
                if i < n {
                    assert(pixel_at(rgba@, 4 * i) == pixel_at(before, 4 * i));
                } else {
                    assert(pixel_at(rgba@, 4 * i) == (r, g, b, a));
                }
            }
            n = n + 1;
        }
        at += 4;
    }
    rgba
}

} // verus!
