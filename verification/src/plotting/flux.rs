//! The pixel grid of a rendered image: where a pixel lies relative to the
//! centre of the image, and which image of the accretion disk it shows.

use vstd::prelude::*;

verus! {

/// Image order to show at an image pixel.
#[derive(Debug, Copy, Clone, PartialEq, Eq, Structural)]
pub enum OrderToShow {
    /// Nothing: the pixel lies inside the silhouette of the black hole.
    Blank,
    /// The direct image of the disk.
    Direct,
    /// The ghost image of the disk, bent around the black hole.
    Lensed,
}

/// The image to show at a pixel, from where it lies:
/// - outside the apparent outer edge of the accretion disk: the ghost image;
/// - inside the apparent inner edge of the accretion disk: the ghost image;
/// - inside the silhouette of the black hole as well: nothing;
/// - otherwise: the direct image.
pub open spec fn shown_order(
    within_inner_edge: bool,
    beyond_outer_edge: bool,
    within_silhouette: bool,
) -> OrderToShow {
    if within_inner_edge || beyond_outer_edge {
        if within_silhouette {
            OrderToShow::Blank
        } else {
            OrderToShow::Lensed
        }
    } else {
        OrderToShow::Direct
    }
}

/// The image to show at a pixel. `within_inner_edge` says that the pixel is
/// no farther from the centre than the apparent inner edge of the disk,
/// `beyond_outer_edge` that it is farther than the apparent outer edge, and
/// `within_silhouette` that it is nearer than both the apparent inner edge
/// and the critical impact parameter.
pub fn order_to_show(
    within_inner_edge: bool,
    beyond_outer_edge: bool,
    within_silhouette: bool,
) -> (order: OrderToShow)
    ensures
        order == shown_order(within_inner_edge, beyond_outer_edge, within_silhouette),
{
    if within_inner_edge || beyond_outer_edge {
        if within_silhouette {
            OrderToShow::Blank
        } else {
            OrderToShow::Lensed
        }
    } else {
        OrderToShow::Direct
    }
}

/// How many pixels the column or row `index` lies after the centre of an
/// image of `extent` columns or rows: to the right of the centre column, or
/// below the centre row. The centre is the column or row `extent / 2`.
pub fn pixel_offset(index: u32, extent: u32) -> (offset: i64)
    ensures
        offset == index - extent / 2,
{
    index as i64 - (extent / 2) as i64
}

/// A pixel inside the silhouette of the black hole shows nothing, whatever
/// else holds of it: what is nearer than the apparent inner edge is not
/// farther than it.
pub proof fn lemma_silhouette_shows_nothing(beyond_outer_edge: bool)
    ensures
        shown_order(true, beyond_outer_edge, true) == OrderToShow::Blank,
{
}

/// The direct image is shown exactly on the disk: past the apparent inner
/// edge and not past the apparent outer edge.
pub proof fn lemma_direct_on_the_disk(
    within_inner_edge: bool,
    beyond_outer_edge: bool,
    within_silhouette: bool,
)
    ensures
        shown_order(within_inner_edge, beyond_outer_edge, within_silhouette) == OrderToShow::Direct
            <==> !within_inner_edge && !beyond_outer_edge,
{
}

} // verus!
