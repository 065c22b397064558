use image::{DynamicImage, GenericImageView, Rgba, RgbaImage};
use mosaic::compose::{assemble, build_mosaic, compose, image_sizes, normalize, MosaicConfig};
use mosaic::error::MosaicError;
use mosaic::grid::GridShape;
use mosaic::layout::compute_layout;

fn solid(w: u32, h: u32, color: [u8; 4]) -> DynamicImage {
    DynamicImage::ImageRgba8(RgbaImage::from_pixel(w, h, Rgba(color)))
}

fn four_colors() -> Vec<DynamicImage> {
    vec![
        solid(50, 50, [255, 0, 0, 255]),
        solid(50, 50, [0, 255, 0, 255]),
        solid(50, 50, [0, 0, 255, 255]),
        solid(50, 50, [255, 255, 0, 255]),
    ]
}

#[test]
fn four_solid_images_make_two_by_two_mosaic() {
    let images = four_colors();
    let config = MosaicConfig { bound: None, margin: 30 };
    let mosaic = build_mosaic(images.clone(), config).unwrap();
    assert_eq!(mosaic.layout.shape, GridShape { columns: 2, rows: 2 });
    assert_eq!((mosaic.layout.canvas_width, mosaic.layout.canvas_height), (190, 190));
    assert_eq!(mosaic.canvas.dimensions(), (190, 190));
    let centers = [(55, 55), (135, 55), (55, 135), (135, 135)];
    for (i, &(cx, cy)) in centers.iter().enumerate() {
        assert_eq!(mosaic.layout.offsets[i], (cx as i64 - 25, cy as i64 - 25));
        assert_eq!(mosaic.canvas.get_pixel(cx, cy), images[i].get_pixel(25, 25));
    }
    // the margin stays transparent
    assert_eq!(mosaic.canvas.get_pixel(10, 10), Rgba([0, 0, 0, 0]));
    assert_eq!(mosaic.canvas.get_pixel(95, 55), Rgba([0, 0, 0, 0]));

    let mut bytes: Vec<u8> = Vec::new();
    mosaic
        .canvas
        .write_to(&mut std::io::Cursor::new(&mut bytes), image::ImageOutputFormat::Png)
        .unwrap();
    let decoded = image::load_from_memory(&bytes).unwrap();
    assert_eq!(decoded.dimensions(), (190, 190));
}

#[test]
fn composing_twice_gives_identical_pixels() {
    let config = MosaicConfig { bound: None, margin: 7 };
    let images = vec![
        solid(20, 10, [1, 2, 3, 255]),
        solid(5, 17, [9, 8, 7, 128]),
        solid(13, 13, [200, 100, 50, 255]),
    ];
    let a = build_mosaic(images.clone(), config).unwrap();
    let b = build_mosaic(images, config).unwrap();
    assert_eq!(a.canvas.as_bytes(), b.canvas.as_bytes());
    assert_eq!(a.canvas.dimensions(), b.canvas.dimensions());
}

#[test]
fn centered_pixel_matches_source_for_uneven_sizes() {
    let config = MosaicConfig { bound: None, margin: 5 };
    let images = vec![solid(40, 20, [10, 20, 30, 255]), solid(11, 31, [40, 50, 60, 255])];
    let mosaic = build_mosaic(images, config).unwrap();
    assert_eq!(mosaic.layout.shape, GridShape { columns: 2, rows: 1 });
    let geometry = mosaic.layout.geometry;
    assert_eq!((geometry.cell_width, geometry.cell_height), (40, 31));
    // second cell center: (45 * 1 + 5 + 20, 5 + 15) = (70, 20)
    assert_eq!(mosaic.layout.offsets[1], (70 - 5, 20 - 15));
    assert_eq!(mosaic.canvas.get_pixel(70, 20), Rgba([40, 50, 60, 255]));
}

#[test]
fn mosaic_of_nothing_fails() {
    let config = MosaicConfig { bound: Some((1280, 720)), margin: 30 };
    assert!(matches!(build_mosaic(vec![], config), Err(MosaicError::NoImagesFound)));
}

#[test]
fn normalize_scales_into_bound() {
    let mut images = vec![solid(50, 50, [1, 1, 1, 255]), solid(2000, 1000, [2, 2, 2, 255])];
    assert_eq!(normalize(&mut images, 1280, 720), Ok(()));
    assert_eq!(image_sizes(&images), vec![(720, 720), (1280, 640)]);
}

#[test]
fn bounded_mosaic_uses_scaled_sizes() {
    let config = MosaicConfig { bound: Some((100, 60)), margin: 30 };
    let mosaic = build_mosaic(four_colors(), config).unwrap();
    assert_eq!(mosaic.sizes, vec![(60, 60); 4]);
    assert_eq!((mosaic.layout.canvas_width, mosaic.layout.canvas_height), (210, 210));
}

#[test]
fn compose_places_at_layout_offsets() {
    let images = vec![solid(3, 3, [9, 9, 9, 255])];
    let layout = compute_layout(&image_sizes(&images), 2).unwrap();
    let canvas = compose(&images, &layout);
    assert_eq!(canvas.dimensions(), (7, 7));
    assert_eq!(canvas.get_pixel(2, 2), Rgba([9, 9, 9, 255]));
    assert_eq!(canvas.get_pixel(1, 1), Rgba([0, 0, 0, 0]));
}

#[test]
fn normalize_refuses_bound_beyond_memory() {
    let mut images = vec![solid(50, 40, [1, 1, 1, 255])];
    assert_eq!(normalize(&mut images, u32::MAX, u32::MAX), Err(MosaicError::ImageTooLarge));
    assert_eq!(image_sizes(&images), vec![(50, 40)]);
    let config = MosaicConfig { bound: Some((u32::MAX, u32::MAX)), margin: 0 };
    assert!(matches!(build_mosaic(images, config), Err(MosaicError::ImageTooLarge)));
}

#[test]
fn normalize_with_zero_bound_gives_one_pixel_side() {
    let mut images = vec![solid(30, 10, [1, 1, 1, 255])];
    assert_eq!(normalize(&mut images, 0, 100), Ok(()));
    let (w, h) = image_sizes(&images)[0];
    assert_eq!(w, 1);
    assert!(h >= 1 && h <= 100);
}

#[test]
fn compose_canvas_has_layout_size() {
    let images = vec![solid(4, 6, [5, 5, 5, 255]), solid(8, 2, [6, 6, 6, 255])];
    let layout = compute_layout(&image_sizes(&images), 1).unwrap();
    let canvas = compose(&images, &layout);
    assert_eq!(canvas.dimensions(), (layout.canvas_width, layout.canvas_height));
    assert_eq!(canvas.dimensions(), (19, 8));
}

#[test]
fn assemble_keeps_images_as_given() {
    let images = vec![solid(10, 4, [3, 3, 3, 255]), solid(2, 8, [4, 4, 4, 255])];
    let mosaic = assemble(images.clone(), 2).unwrap();
    assert_eq!(mosaic.images.len(), 2);
    assert_eq!(mosaic.sizes, vec![(10, 4), (2, 8)]);
    assert_eq!(mosaic.layout.shape, GridShape { columns: 2, rows: 1 });
    assert_eq!(mosaic.canvas.dimensions(), (26, 12));
    // second cell center: (12 + 2 + 5, 2 + 4) = (19, 6)
    assert_eq!(mosaic.layout.offsets[1], (18, 2));
    assert_eq!(mosaic.canvas.get_pixel(19, 6), Rgba([4, 4, 4, 255]));
    assert!(matches!(assemble(vec![], 2), Err(MosaicError::NoImagesFound)));
}

#[test]
fn bounded_mosaic_keeps_scaled_images() {
    let config = MosaicConfig { bound: Some((100, 60)), margin: 30 };
    let mosaic = build_mosaic(vec![solid(40, 20, [7, 7, 7, 255])], config).unwrap();
    assert_eq!(mosaic.images[0].dimensions(), (100, 50));
    assert_eq!(mosaic.sizes, vec![(100, 50)]);
}
