use ray_tracing::perlin::{PerlinTables, TABLE_SIZE};

#[test]
fn test_tables_are_permutations() {
    let t = PerlinTables::new();
    for table in [&t.perm_x, &t.perm_y, &t.perm_z] {
        assert_eq!(table.len(), TABLE_SIZE);
        let mut sorted = table.clone();
        sorted.sort();
        let identity: Vec<u8> = (0..TABLE_SIZE).map(|i| i as u8).collect();
        assert_eq!(sorted, identity);
    }
}

#[test]
fn test_gradient_index_matches_tables() {
    let t = PerlinTables::new();
    for (x, y, z) in [(0, 0, 0), (1, 2, 3), (255, 255, 255), (256, 300, 511)] {
        let expect = (t.perm_x[(x & 255) as usize]
            ^ t.perm_y[(y & 255) as usize]
            ^ t.perm_z[(z & 255) as usize]) as usize;
        assert_eq!(t.gradient_index(x, y, z), expect);
        assert!(t.gradient_index(x, y, z) < TABLE_SIZE);
    }
}

#[test]
fn test_gradient_index_wraps_negative_coordinates() {
    let t = PerlinTables::new();
    // -1 has low byte 255 in two's complement.
    let expect = (t.perm_x[255] ^ t.perm_y[0] ^ t.perm_z[0]) as usize;
    assert_eq!(t.gradient_index(-1, 0, 0), expect);
    let expect = (t.perm_x[0] ^ t.perm_y[255] ^ t.perm_z[6]) as usize;
    assert_eq!(t.gradient_index(-256, -1, 262), expect);
}

#[test]
fn test_tables_are_shuffled() {
    // Three freshly shuffled tables of 256 entries are, for any practical
    // purpose, never all the identity: this catches a shuffle that hands
    // its input back unchanged.
    let t = PerlinTables::new();
    let identity: Vec<u8> = (0..TABLE_SIZE).map(|i| i as u8).collect();
    assert!(t.perm_x != identity || t.perm_y != identity || t.perm_z != identity);
}
