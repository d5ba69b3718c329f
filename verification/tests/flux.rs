use luminet_blackhole_lib::plotting::flux::{order_to_show, pixel_offset, OrderToShow};

#[test]
fn the_disk_shows_the_direct_image() {
    assert_eq!(order_to_show(false, false, false), OrderToShow::Direct);
    // not within the inner edge: what is claimed of the silhouette does not count
    assert_eq!(order_to_show(false, false, true), OrderToShow::Direct);
}

#[test]
fn outside_the_outer_edge_shows_the_ghost_image() {
    assert_eq!(order_to_show(false, true, false), OrderToShow::Lensed);
}

#[test]
fn inside_the_inner_edge_shows_the_ghost_image() {
    assert_eq!(order_to_show(true, false, false), OrderToShow::Lensed);
    assert_eq!(order_to_show(true, true, false), OrderToShow::Lensed);
}

#[test]
fn inside_the_silhouette_shows_nothing() {
    assert_eq!(order_to_show(true, false, true), OrderToShow::Blank);
    assert_eq!(order_to_show(true, true, true), OrderToShow::Blank);
    assert_eq!(order_to_show(false, true, true), OrderToShow::Blank);
}

#[test]
fn zones_by_impact_parameter() {
    // the apparent inner edge at 5, the outer edge at 40, the critical impact parameter at 5.196
    let zone = |impact_parameter: f64| {
        let (inner, outer, critical) = (5.0_f64, 40.0_f64, 5.196_f64);
        order_to_show(
            impact_parameter <= inner,
            impact_parameter > outer,
            impact_parameter < inner.min(critical),
        )
    };
    assert_eq!(zone(0.0), OrderToShow::Blank);
    assert_eq!(zone(4.999), OrderToShow::Blank);
    assert_eq!(zone(5.0), OrderToShow::Lensed);
    assert_eq!(zone(5.001), OrderToShow::Direct);
    assert_eq!(zone(40.0), OrderToShow::Direct);
    assert_eq!(zone(40.001), OrderToShow::Lensed);
}

#[test]
fn pixel_offsets_count_from_the_centre() {
    assert_eq!(pixel_offset(0, 256), -128);
    assert_eq!(pixel_offset(128, 256), 0);
    assert_eq!(pixel_offset(255, 256), 127);
    assert_eq!(pixel_offset(0, 135), -67);
    assert_eq!(pixel_offset(67, 135), 0);
    assert_eq!(pixel_offset(134, 135), 67);
}

#[test]
fn pixel_offsets_at_the_limits() {
    assert_eq!(pixel_offset(0, 0), 0);
    assert_eq!(pixel_offset(0, 1), 0);
    assert_eq!(pixel_offset(u32::MAX, 0), 4_294_967_295);
    assert_eq!(pixel_offset(0, u32::MAX), -2_147_483_647);
    assert_eq!(pixel_offset(u32::MAX, u32::MAX), 2_147_483_648);
}
