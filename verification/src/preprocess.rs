//! The black & white conversion applied to an image before it is turned into dots.

use vstd::prelude::*;
use crate::config::BwMode;
use crate::grid::Raster;

verus! {

/// The pixel `k` becomes after the conversion `mode`: unchanged in colour
/// mode; the grey `gray[k]` in grayscale mode; white where `bright[k]` and
/// black elsewhere in threshold mode.
pub open spec fn converted(
    mode: BwMode,
    p: (u8, u8, u8),
    gray: Seq<u8>,
    bright: Seq<bool>,
    k: int,
) -> (u8, u8, u8) {
    match mode {
        BwMode::Color => p,
        BwMode::Grayscale => (gray[k], gray[k], gray[k]),
        BwMode::Threshold => if bright[k] {
            (255u8, 255u8, 255u8)
        } else {
            (0u8, 0u8, 0u8)
        },
    }
}

/// What each mode does to a pixel: colour mode keeps it, grayscale mode
/// writes its grey level on all three channels, threshold mode makes it white
/// when it is bright and black otherwise.
pub proof fn lemma_conversion_by_mode(
    p: (u8, u8, u8),
    gray: Seq<u8>,
    bright: Seq<bool>,
    k: int,
)
    ensures
        converted(BwMode::Color, p, gray, bright, k) == p,
        converted(BwMode::Grayscale, p, gray, bright, k) == (gray[k], gray[k], gray[k]),
        bright[k] ==> converted(BwMode::Threshold, p, gray, bright, k) == (255u8, 255u8, 255u8),
        !bright[k] ==> converted(BwMode::Threshold, p, gray, bright, k) == (0u8, 0u8, 0u8),
{
}

/// Applies the black & white conversion `mode` in place.
///
/// The per-pixel decisions are given: `gray[k]` is the grey level of pixel
/// `k` (its luminance scaled to 0..=255 and rounded), used in grayscale mode;
/// `bright[k]` says whether its luminance reaches the threshold, used in
/// threshold mode.
pub fn apply(img: &mut Raster, mode: BwMode, gray: &Vec<u8>, bright: &Vec<bool>)
    requires
        old(img).wf(),
        mode == BwMode::Grayscale ==> gray@.len() == old(img).pixels@.len(),
        mode == BwMode::Threshold ==> bright@.len() == old(img).pixels@.len(),
    ensures
        final(img).wf(),
        final(img).width == old(img).width,
        final(img).height == old(img).height,
        final(img).pixels@.len() == old(img).pixels@.len(),
        forall|k: int|
            0 <= k < final(img).pixels@.len() ==> #[trigger] final(img).pixels@[k] == converted(
                mode,
                old(img).pixels@[k],
                gray@,
                bright@,
                k,
            ),
        mode == BwMode::Color ==> final(img).pixels@ == old(img).pixels@,
        mode == BwMode::Grayscale ==> forall|k: int|
            0 <= k < final(img).pixels@.len() ==> #[trigger] final(img).pixels@[k] == (
                gray@[k],
                gray@[k],
                gray@[k],
            ),
        mode == BwMode::Threshold ==> forall|k: int|
            0 <= k < final(img).pixels@.len() ==> #[trigger] final(img).pixels@[k] == (if bright@[k] {
                (255u8, 255u8, 255u8)
            } else {
                (0u8, 0u8, 0u8)
            }),
        mode != BwMode::Color ==> forall|k: int|
            0 <= k < final(img).pixels@.len() ==> (#[trigger] final(img).pixels@[k]).0
                == final(img).pixels@[k].1 && final(img).pixels@[k].1 == final(img).pixels@[k].2,
        mode == BwMode::Threshold ==> forall|k: int|
            0 <= k < final(img).pixels@.len() ==> (#[trigger] final(img).pixels@[k]).0 == 0
                || final(img).pixels@[k].0 == 255,
{
    if mode == BwMode::Color {
        return;
    }
    let n = img.pixels.len();
    let mut i: usize = 0;
    while i < n
        invariant
            i <= n == img.pixels@.len() == old(img).pixels@.len(),
            img.width == old(img).width,
            img.height == old(img).height,
            mode != BwMode::Color,
            mode == BwMode::Grayscale ==> gray@.len() == n,
            mode == BwMode::Threshold ==> bright@.len() == n,
            forall|k: int|
                0 <= k < i ==> #[trigger] img.pixels@[k] == converted(
                    mode,
                    old(img).pixels@[k],
                    gray@,
                    bright@,
                    k,
                ),
            forall|k: int| i <= k < n ==> #[trigger] img.pixels@[k] == old(img).pixels@[k],
        decreases n - i,
    {
        let p = if mode == BwMode::Grayscale {
            let l = gray[i];
            (l, l, l)
        } else if bright[i] {
            (255u8, 255u8, 255u8)
        } else {
            (0u8, 0u8, 0u8)
        };
        img.pixels.set(i, p);
        i = i + 1;
    }
}

} // verus!
