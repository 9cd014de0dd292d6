use log2gfx::gridmap::GridMap;

#[test]
fn gridmap_new_and_cells() {
    let m: GridMap<i64> = GridMap::new(4, 3, 100, -200, 300, 7);
    assert_eq!(m.width(), 4);
    assert_eq!(m.height(), 3);
    assert_eq!(m.resolution(), 100);
    assert_eq!(m.offset_x(), -200);
    assert_eq!(m.offset_y(), 300);
    assert_eq!(m.cells().len(), 12);
    assert_eq!(m.cell(0, 0), Some(&7));
    assert_eq!(m.cell(3, 2), Some(&7));
}

#[test]
fn gridmap_is_inside_includes_first_row_and_column() {
    let m: GridMap<u8> = GridMap::new(5, 5, 10, 0, 0, 0);
    assert!(m.is_inside(0, 0));
    assert!(m.is_inside(0, 4));
    assert!(m.is_inside(4, 0));
    assert!(!m.is_inside(5, 0));
    assert!(!m.is_inside(0, 5));
    assert!(!m.is_inside(-1, 2));
    assert!(!m.is_inside(2, -1));
}

#[test]
fn gridmap_out_of_range_access_is_none() {
    let mut m: GridMap<u8> = GridMap::new(2, 2, 10, 0, 0, 0);
    assert_eq!(m.cell(2, 0), None);
    assert_eq!(m.cell(0, -3), None);
    assert!(!m.set_cell(2, 0, 9));
    assert_eq!(m.cell(1, 1), Some(&0));
}

#[test]
fn gridmap_set_cell_row_major() {
    let mut m: GridMap<i32> = GridMap::new(3, 2, 10, 0, 0, 0);
    assert!(m.set_cell(2, 1, 42));
    assert_eq!(m.cell(2, 1), Some(&42));
    // row-major: cell (2, 1) is the last buffer entry
    assert_eq!(m.cells()[5], 42);
    assert_eq!(m.cell(1, 2), None);
}

#[test]
fn gridmap_world_conversion_floors() {
    let m: GridMap<u8> = GridMap::new(100, 100, 100, -5000, -5000, 0);
    assert_eq!(m.world2map(0, 0), (50, 50));
    assert_eq!(m.world2map(-5000, -5000), (0, 0));
    // flooring, not truncation toward zero
    assert_eq!(m.world2map(-5001, -5050), (-1, -1));
    assert_eq!(m.world2map(99, -99), (50, 49));
}

#[test]
fn gridmap_roundtrip_within_one_resolution_unit() {
    let m: GridMap<u8> = GridMap::new(100, 100, 100, -5000, 300, 0);
    for &(px, py) in &[(123i64, -4567i64), (0, 0), (-5000, 300), (-1, 1), (4999, -4999)] {
        let (gx, gy) = m.world2map(px, py);
        let (wx, wy) = m.map2world(gx, gy);
        assert!((wx - px).abs() <= 100, "x drifted: {} -> {}", px, wx);
        assert!((wy - py).abs() <= 100, "y drifted: {} -> {}", py, wy);
    }
}

#[test]
fn gridmap_cell_center() {
    let m: GridMap<u8> = GridMap::new(10, 10, 100, -500, -500, 0);
    // center of cell (0, 0) is offset + half a cell
    assert_eq!(m.map2world(0, 0), (-450, -450));
    assert_eq!(m.map2world(9, 3), (450, -150));
}
