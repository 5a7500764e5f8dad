//! Turning the pixels of an executable's icon into an image for the rows.
//!
//! Windows hands the colour bitmap back as 32-bit BGRA. Icons stored without
//! an alpha channel come back fully transparent; for those the icon's
//! monochrome AND mask decides, where set bits are transparent. Reading the
//! bitmaps and uploading the image happen outside this crate.

use vstd::prelude::*;

verus! {

/// Whether every whole pixel of `p` has alpha 0.
pub open spec fn all_transparent(p: Seq<u8>) -> bool {
    forall|k: int| 0 <= k < p.len() / 4 ==> #[trigger] p[4 * k + 3] == 0
}

/// The alpha pixel `k` gets: from the mask when the icon has no alpha of its
/// own (opaque where the mask is dark, or everywhere without a mask), its
/// own otherwise.
pub open spec fn icon_alpha(p: Seq<u8>, mask: Option<Seq<u8>>, k: int) -> u8 {
    if all_transparent(p) {
        match mask {
            None => 255,
            Some(m) => if k < m.len() / 4 {
                if m[4 * k] > 127 {
                    0
                } else {
                    255
                }
            } else {
                p[4 * k + 3]
            },
        }
    } else {
        p[4 * k + 3]
    }
}

/// The RGBA image for BGRA pixels `p`: red and blue swapped, alpha as
/// `icon_alpha` says. Bytes after the last whole pixel are kept as they are.
pub open spec fn icon_image_spec(p: Seq<u8>, mask: Option<Seq<u8>>) -> Seq<u8> {
    Seq::new(
        p.len(),
        |i: int|
            if i >= (p.len() / 4) * 4 {
                p[i]
            } else if i % 4 == 0 {
                p[i + 2]
            } else if i % 4 == 1 {
                p[i]
            } else if i % 4 == 2 {
                p[i - 2]
            } else {
                icon_alpha(p, mask, i / 4)
            },
    )
}

fn is_all_transparent(p: &Vec<u8>) -> (r: bool)
    ensures
        r == all_transparent(p@),
{
    let len = p.len();
    let n = len / 4;
    let mut k: usize = 0;
    while k < n
        invariant
            len == p@.len(),
            n == p@.len() / 4,
            k <= n,
            forall|j: int| 0 <= j < k ==> #[trigger] p@[4 * j + 3] == 0,
        decreases n - k,
    {
        assert(4 * k + 3 < p@.len());
        let at = 4 * k + 3;
        if p[at] != 0 {
            return false;
        }
        k = k + 1;
    }
    true
}

/// The RGBA image for an icon read as BGRA `pixels`, with `mask` the AND
/// mask read the same way when it could be read.
pub fn icon_image(pixels: Vec<u8>, mask: Option<&[u8]>) -> (r: Vec<u8>)
    ensures
        r@ == icon_image_spec(
            pixels@,
            match mask {
                Some(m) => Some(m@),
                None => None,
            },
        ),
{
    let ghost p = pixels@;
    let ghost mv = match mask {
        Some(m) => Some(m@),
        None => None,
    };
    let transparent = is_all_transparent(&pixels);
    let len = pixels.len();
    let n = len / 4;
    let mut out = pixels;
    let mut k: usize = 0;
    while k < n
        invariant
            n == p.len() / 4,
            len == p.len(),
            k <= n,
            out@.len() == p.len(),
            transparent == all_transparent(p),
            mv == match mask {
                Some(m) => Some(m@),
                None => None,
            },
            forall|i: int| 0 <= i < 4 * k ==> out@[i] == #[trigger] icon_image_spec(p, mv)[i],
            forall|i: int| 4 * k <= i < p.len() ==> out@[i] == #[trigger] p[i],
        decreases n - k,
    {
        assert(4 * k + 3 < p.len());
        let at = 4 * k;
        let b = out[at];
        let r = out[at + 2];
        let own_alpha = out[at + 3];
        let alpha = if transparent {
            match mask {
                None => 255u8,
                Some(m) => {
                    if k < m.len() / 4 {
                        if m[at] > 127 {
                            0u8
                        } else {
                            255u8
                        }
                    } else {
                        own_alpha
                    }
                },
            }
        } else {
            own_alpha
        };
        out.set(at, r);
        out.set(at + 2, b);
        out.set(at + 3, alpha);
        proof {
            assert(alpha == icon_alpha(p, mv, k as int));
            assert forall|i: int| 0 <= i < 4 * (k + 1) implies out@[i] == #[trigger] icon_image_spec(
                p,
                mv,
            )[i] by {
                if i >= 4 * k {
                    assert(i < (p.len() / 4) * 4);
                    assert(i / 4 == k);
                }
            }
        }
        k = k + 1;
    }
    assert(out@ =~= icon_image_spec(p, mv));
    out
}

} // verus!
