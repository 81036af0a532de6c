use mnist_idx::geom::Geometry;

#[test]
fn counts_neurons_across_layers() {
    let geometry = Geometry::new(vec![3, 4, 5]);
    assert_eq!(geometry.num_neurons(), 12);
    assert_eq!(geometry.layers().as_slice(), &[3usize, 4, 5]);
}

#[test]
fn empty_geometry_has_no_neurons() {
    let geometry = Geometry::new(Vec::new());
    assert_eq!(geometry.num_neurons(), 0);
    assert!(geometry.layers().is_empty());
}
