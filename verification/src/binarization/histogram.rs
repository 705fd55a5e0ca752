//! The 256-bin grayscale histogram that global (Otsu) thresholding reads.

use vstd::prelude::*;

use crate::gray::GrayPixels;

verus! {

/// How many of the values in `s` equal `v`.
pub open spec fn count_value(s: Seq<u8>, v: int) -> nat
    decreases s.len(),
{
    if s.len() == 0 {
        0
    } else {
        count_value(s.drop_last(), v) + if s.last() == v {
            1nat
        } else {
            0nat
        }
    }
}

proof fn lemma_count_at_most(s: Seq<u8>, v: int)
    ensures
        count_value(s, v) <= s.len(),
    decreases s.len(),
{
    if s.len() > 0 {
        lemma_count_at_most(s.drop_last(), v);
    }
}

/// The histogram of a raster: entry `v` counts the pixels of value `v`.
pub fn histogram(img: &GrayPixels) -> (h: Vec<u64>)
    ensures
        h@.len() == 256,
        forall|v: int| 0 <= v < 256 ==> #[trigger] h@[v] == count_value(img.pixels@, v),
{
    let mut h: Vec<u64> = vec![0u64; 256];
    let mut i: usize = 0;
    while i < img.pixels.len()
        invariant
            i <= img.pixels@.len(),
            h@.len() == 256,
            forall|v: int| 0 <= v < 256 ==> #[trigger] h@[v] == count_value(img.pixels@.take(i as int), v),
        decreases img.pixels.len() - i,
    {
        let p = img.pixels[i] as usize;
        proof {
            assert(img.pixels@.take(i + 1 as int).drop_last() =~= img.pixels@.take(i as int));
            lemma_count_at_most(img.pixels@.take(i as int), p as int);
        }
        let c = h[p];
        h.set(p, c + 1);
        proof {
            assert forall|v: int| 0 <= v < 256 implies #[trigger] h@[v] == count_value(img.pixels@.take(i + 1 as int), v) by {
                assert(img.pixels@.take(i + 1 as int).last() == img.pixels@[i as int]);
            }
        }
        i = i + 1;
    }
    assert(img.pixels@.take(img.pixels@.len() as int) =~= img.pixels@);
    h
}

} // verus!
