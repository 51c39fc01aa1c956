//! Sets of MMR positions, held in roaring bitmaps.

use croaring::Bitmap;
use vstd::prelude::*;

verus! {

/// `croaring::Bitmap`, a compressed set of 32-bit integers. Nothing is
/// seen of what is inside one: it is made, copied, joined and asked by
/// the functions below.
#[verifier::external_type_specification]
#[verifier::external_body]
pub struct ExBitmap(croaring::Bitmap);

/// The integers that a bitmap holds.
pub uninterp spec fn bitmap_values(b: Bitmap) -> Set<u32>;

/// The integers held by at least one bitmap of `bitmaps`.
pub open spec fn union_of(bitmaps: Seq<Bitmap>) -> Set<u32> {
    Set::new(
        |x: u32|
            exists|i: int|
                0 <= i < bitmaps.len() && #[trigger] bitmap_values(bitmaps[i]).contains(x),
    )
}

/// `Bitmap::new` creates a bitmap that is initially empty.
#[verifier::external_body]
pub(crate) fn bitmap_new() -> (b: Bitmap)
    ensures
        bitmap_values(b) == Set::<u32>::empty(),
{
    Bitmap::new()
}

/// `Bitmap::contains` tells whether the integer is held by the bitmap.
#[verifier::external_body]
pub(crate) fn bitmap_contains(b: &Bitmap, x: u32) -> (r: bool)
    ensures
        r == bitmap_values(*b).contains(x),
{
    b.contains(x)
}

/// `Bitmap::clone` creates a copy of the bitmap, which holds the same
/// integers.
#[verifier::external_body]
pub(crate) fn bitmap_clone(b: &Bitmap) -> (r: Bitmap)
    ensures
        bitmap_values(r) == bitmap_values(*b),
{
    b.clone()
}

/// `Bitmap::fast_or` computes the union of many bitmaps and returns it as
/// a new bitmap.
#[verifier::external_body]
pub(crate) fn bitmap_fast_or(bitmaps: &Vec<Bitmap>) -> (r: Bitmap)
    ensures
        bitmap_values(r) == union_of(bitmaps@),
{
    let refs: Vec<&Bitmap> = bitmaps.iter().collect();
    Bitmap::fast_or(&refs)
}

} // verus!
