use mosaic::error::MosaicError;
use mosaic::grid::GridShape;
use mosaic::layout::{canvas_size, compute_layout, max_dimensions, placement_offset, CellGeometry};

#[test]
fn canvas_of_three_by_two() {
    let shape = GridShape { columns: 3, rows: 2 };
    let geometry = CellGeometry { cell_width: 100, cell_height: 100, margin: 10 };
    assert_eq!(canvas_size(shape, geometry), Some((340, 230)));
}

#[test]
fn canvas_with_original_margin() {
    let shape = GridShape { columns: 2, rows: 2 };
    let geometry = CellGeometry { cell_width: 50, cell_height: 40, margin: 30 };
    assert_eq!(canvas_size(shape, geometry), Some((190, 170)));
}

#[test]
fn canvas_too_large_is_refused() {
    let shape = GridShape { columns: 1 << 20, rows: 1 };
    let geometry = CellGeometry { cell_width: 1 << 12, cell_height: 1, margin: 0 };
    assert_eq!(canvas_size(shape, geometry), None);
    let geometry = CellGeometry { cell_width: u32::MAX, cell_height: u32::MAX, margin: 0 };
    assert_eq!(canvas_size(GridShape { columns: 1, rows: 1 }, geometry), None);
}

#[test]
fn placement_centers_image_in_cell() {
    let geometry = CellGeometry { cell_width: 100, cell_height: 80, margin: 10 };
    // cell (1, 1) center: (110 + 10 + 50, 90 + 10 + 40) = (170, 140)
    assert_eq!(placement_offset(geometry, 1, 1, 40, 20), (150, 130));
    assert_eq!(placement_offset(geometry, 0, 0, 100, 80), (10, 10));
    assert_eq!(placement_offset(geometry, 2, 0, 31, 11), (280 - 15, 50 - 5));
}

#[test]
fn max_dimensions_per_axis() {
    assert_eq!(max_dimensions(&vec![]), None);
    assert_eq!(max_dimensions(&vec![(10, 90), (30, 20), (5, 5)]), Some((30, 90)));
}

#[test]
fn layout_of_nothing_fails() {
    assert!(matches!(compute_layout(&vec![], 30), Err(MosaicError::NoImagesFound)));
}

#[test]
fn layout_of_too_many_large_images_fails() {
    let sizes = vec![(u32::MAX, 1), (1, 1)];
    assert!(matches!(compute_layout(&sizes, 0), Err(MosaicError::CanvasTooLarge)));
}

#[test]
fn layout_of_six_images() {
    let sizes = vec![(100, 50), (80, 100), (100, 100), (20, 20), (100, 100), (60, 40)];
    let layout = compute_layout(&sizes, 10).unwrap();
    assert_eq!(layout.shape, GridShape { columns: 3, rows: 2 });
    assert_eq!(layout.geometry, CellGeometry { cell_width: 100, cell_height: 100, margin: 10 });
    assert_eq!((layout.canvas_width, layout.canvas_height), (340, 230));
    assert_eq!(
        layout.offsets,
        vec![(10, 35), (130, 10), (230, 10), (50, 160), (120, 120), (250, 150)]
    );
}

#[test]
fn layout_is_the_same_twice() {
    let sizes = vec![(7, 9), (3, 1), (12, 4), (5, 5), (2, 8)];
    let a = compute_layout(&sizes, 3).unwrap();
    let b = compute_layout(&sizes, 3).unwrap();
    assert_eq!(a.shape, b.shape);
    assert_eq!(a.geometry, b.geometry);
    assert_eq!((a.canvas_width, a.canvas_height), (b.canvas_width, b.canvas_height));
    assert_eq!(a.offsets, b.offsets);
}

#[test]
fn images_stay_inside_their_cells() {
    let sizes = vec![(7, 9), (3, 1), (12, 4), (5, 5), (2, 8), (1, 1), (12, 9), (0, 0)];
    let layout = compute_layout(&sizes, 4).unwrap();
    let g = layout.geometry;
    let c = layout.shape.columns;
    for (i, &(w, h)) in sizes.iter().enumerate() {
        let (x, y) = layout.offsets[i];
        let left = ((g.cell_width + g.margin) as usize * (i % c) + g.margin as usize) as i64;
        let top = ((g.cell_height + g.margin) as usize * (i / c) + g.margin as usize) as i64;
        assert!(left <= x && x + w as i64 <= left + g.cell_width as i64);
        assert!(top <= y && y + h as i64 <= top + g.cell_height as i64);
        assert!(x + w as i64 <= layout.canvas_width as i64);
        assert!(y + h as i64 <= layout.canvas_height as i64);
    }
}
