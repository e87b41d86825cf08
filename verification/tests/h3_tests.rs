use eclair_routing::h3::{grid_path, Cell, GRID_PATH_ERROR};
use h3o::{LatLng, Resolution};

fn cell_at(lat: f64, lon: f64, resolution: Resolution) -> Cell {
    let cell = LatLng::new(lat, lon).unwrap().to_cell(resolution);
    Cell::from_index(u64::from(cell)).unwrap()
}

#[test]
fn test_grid_path_same_cell() {
    let cell = cell_at(48.8566, 2.3522, Resolution::Seven);
    let path = grid_path(cell, cell).unwrap();
    assert_eq!(path.len(), 1);
}

#[test]
fn test_grid_path_nearby() {
    let a = cell_at(48.8566, 2.3522, Resolution::Seven); // Paris
    let b = cell_at(48.8600, 2.3600, Resolution::Seven); // nearby
    let path = grid_path(a, b).unwrap();
    assert!(path.len() >= 1);
}

#[test]
fn grid_path_runs_from_origin_to_destination() {
    let a = cell_at(48.8566, 2.3522, Resolution::Seven);
    let b = cell_at(48.9566, 2.5522, Resolution::Seven);
    assert_ne!(a, b);
    let path = grid_path(a, b).unwrap();
    assert!(path.len() >= 2);
    assert_eq!(path[0], a);
    assert_eq!(path[path.len() - 1], b);
}

#[test]
fn grid_path_rejects_mixed_resolutions() {
    let a = cell_at(48.8566, 2.3522, Resolution::Seven);
    let b = cell_at(48.8566, 2.3522, Resolution::Eight);
    let err = grid_path(a, b).unwrap_err();
    assert!(err.starts_with(GRID_PATH_ERROR));
    assert_eq!(err, "grid path error: resolution mismatch");
}

#[test]
fn cell_from_valid_index() {
    let cell = Cell::from_index(0x8a1fb46622dffff).unwrap();
    assert_eq!(cell.index(), 0x8a1fb46622dffff);
}

#[test]
fn cell_from_invalid_index() {
    assert!(Cell::from_index(0).is_none());
    assert!(Cell::from_index(0xffff_ffff_ffff_ffff).is_none());
}
