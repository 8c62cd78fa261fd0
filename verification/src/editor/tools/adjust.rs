//! Colour adjustments that need no arithmetic on colours: sampling the key
//! colour for background removal.

use vstd::prelude::*;

use crate::image::{spec_pixel, PropImage};

verus! {

/// The colour under `(x, y)` as a chroma key: `None` when the point is off the
/// image or the pixel is fully transparent, since an invisible pixel has no
/// meaningful colour to remove.
pub fn sample_key_colour(image: &PropImage, x: u32, y: u32) -> (r: Option<[u8; 3]>)
    requires
        image.wf(),
    ensures
        (x >= image@.width || y >= image@.height) ==> r is None,
        (x < image@.width && y < image@.height) ==> ({
            let p = spec_pixel(image@, x as int, y as int);
            if p[3] == 0 {
                r is None
            } else {
                r matches Some(k) && k@ == seq![p[0], p[1], p[2]]
            }
        }),
{
    let pixel = match image.pixel(x, y) {
        Some(p) => p,
        None => {
            return None;
        },
    };
    if pixel[3] == 0 {
        return None;
    }
    let key = [pixel[0], pixel[1], pixel[2]];
    assert(key@ =~= seq![pixel@[0], pixel@[1], pixel@[2]]);
    Some(key)
}

} // verus!
