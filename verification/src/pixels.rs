//! Pixel-buffer conversion for the capture path: the windowing system
//! hands over RGBA bytes, the inference engine wants RGB.

use vstd::arithmetic::div_mod::lemma_fundamental_div_mod_converse;
use vstd::prelude::*;

verus! {

/// Drop the alpha channel: every four input bytes become three output
/// bytes, in order.
pub fn rgba8_to_rgb8(input: &Vec<u8>) -> (r: Vec<u8>)
    requires
        input@.len() % 4 == 0,
    ensures
        r@.len() == input@.len() / 4 * 3,
        forall|i: int|
            0 <= i < r@.len() ==> #[trigger] r@[i] == input@[4 * (i / 3) + (i % 3)],
{
    let pixels: usize = input.len() / 4;
    proof {
        vstd::arithmetic::div_mod::lemma_fundamental_div_mod(input@.len() as int, 4);
    }
    let mut r: Vec<u8> = Vec::new();
    let mut p: usize = 0;
    while p < pixels
        invariant
            pixels == input@.len() / 4,
            4 * (pixels as int) == input@.len(),
            input@.len() <= usize::MAX,
            input@.len() % 4 == 0,
            p <= pixels,
            r@.len() == 3 * p,
            forall|i: int| 0 <= i < r@.len() ==> #[trigger] r@[i] == input@[4 * (i / 3) + (i % 3)],
        decreases pixels - p,
    {
        let base: usize = 4 * p;
        let ghost len_before: int = r@.len() as int;
        r.push(input[base]);
        r.push(input[base + 1]);
        r.push(input[base + 2]);
        proof {
            lemma_fundamental_div_mod_converse(len_before, 3, p as int, 0);
            lemma_fundamental_div_mod_converse(len_before + 1, 3, p as int, 1);
            lemma_fundamental_div_mod_converse(len_before + 2, 3, p as int, 2);
        }
        p = p + 1;
    }
    r
}

} // verus!
