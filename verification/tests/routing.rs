use hushwire::routing::route_listing_contains;

#[test]
fn route_listing_distinguishes_target_device() {
    let listing = "10.77.60.2 dev hwmactw0 scope link\n";
    assert!(route_listing_contains(listing, Some("hwmactw0")));
    assert!(!route_listing_contains(listing, Some("stb0")));
    assert!(route_listing_contains(listing, None));
    assert!(!route_listing_contains("", None));
}
