use vstd::prelude::*;

use crate::error::MosaicError;
use crate::grid::{is_grid_for, is_low_factor, plan, GridShape};

verus! {

/// Length of a canvas side holding `cells` cells of size `cell`, with a band of
/// `margin` pixels before, between and after them.
pub open spec fn canvas_extent(cell: int, margin: int, cells: int) -> int {
    (cell + margin) * cells + margin
}

/// Coordinate of the center of the cell at `index` along one axis.
pub open spec fn cell_center(cell: int, margin: int, index: int) -> int {
    (cell + margin) * index + margin + cell / 2
}

/// Top-left coordinate, along one axis, of an image of length `size` centered
/// in the cell at `index`.
pub open spec fn placement(cell: int, margin: int, index: int, size: int) -> int {
    cell_center(cell, margin, index) - size / 2
}

/// A canvas of `width` by `height` RGBA pixels can be addressed and allocated.
pub open spec fn canvas_fits(width: int, height: int) -> bool {
    &&& width <= u32::MAX
    &&& height <= u32::MAX
    &&& 4 * (width * height) <= isize::MAX
}

/// The largest width among `sizes`, or zero.
pub open spec fn max_width(sizes: Seq<(u32, u32)>) -> int
    decreases sizes.len(),
{
    if sizes.len() == 0 {
        0
    } else {
        let rest = max_width(sizes.drop_last());
        if sizes.last().0 > rest {
            sizes.last().0 as int
        } else {
            rest
        }
    }
}

/// The largest height among `sizes`, or zero.
pub open spec fn max_height(sizes: Seq<(u32, u32)>) -> int
    decreases sizes.len(),
{
    if sizes.len() == 0 {
        0
    } else {
        let rest = max_height(sizes.drop_last());
        if sizes.last().1 > rest {
            sizes.last().1 as int
        } else {
            rest
        }
    }
}

/// Size of the content box of every cell, and the spacing around cells.
#[derive(Debug, Clone, Copy, PartialEq, Eq, Structural)]
pub struct CellGeometry {
    pub cell_width: u32,
    pub cell_height: u32,
    pub margin: u32,
}

/// Width of the canvas for `shape` and `geometry`.
pub open spec fn canvas_width_of(shape: GridShape, geometry: CellGeometry) -> int {
    canvas_extent(geometry.cell_width as int, geometry.margin as int, shape.columns as int)
}

/// Height of the canvas for `shape` and `geometry`.
pub open spec fn canvas_height_of(shape: GridShape, geometry: CellGeometry) -> int {
    canvas_extent(geometry.cell_height as int, geometry.margin as int, shape.rows as int)
}

/// The canvas size for `shape` and `geometry`, when such a canvas can be made.
pub fn canvas_size(shape: GridShape, geometry: CellGeometry) -> (r: Option<(u32, u32)>)
    ensures
        r is Some <==> canvas_fits(canvas_width_of(shape, geometry), canvas_height_of(shape, geometry)),
        r matches Some((w, h)) ==> w == canvas_width_of(shape, geometry) && h == canvas_height_of(
            shape,
            geometry,
        ),
{
    let m = geometry.margin as u128;
    let a = geometry.cell_width as u128 + m;
    let b = geometry.cell_height as u128 + m;
    let c = shape.columns as u128;
    let d = shape.rows as u128;
    proof {
        assert(a * c <= 0x2_0000_0000 * 0x1_0000_0000_0000_0000) by (nonlinear_arith)
            requires
                a < 0x2_0000_0000,
                c <= 0x1_0000_0000_0000_0000,
        ;
        assert(b * d <= 0x2_0000_0000 * 0x1_0000_0000_0000_0000) by (nonlinear_arith)
            requires
                b < 0x2_0000_0000,
                d <= 0x1_0000_0000_0000_0000,
        ;
    }
    let w = a * c + m;
    let h = b * d + m;
    if w > u32::MAX as u128 || h > u32::MAX as u128 {
        return None;
    }
    proof {
        assert(w * h <= 0xffff_ffff * 0xffff_ffff) by (nonlinear_arith)
            requires
                w <= 0xffff_ffff,
                h <= 0xffff_ffff,
        ;
    }
    if 4 * (w * h) > isize::MAX as u128 {
        return None;
    }
    Some((w as u32, h as u32))
}

/// Top-left offset of an image of `width` by `height` pixels centered in the
/// cell at `column` and `row`.
pub fn placement_offset(geometry: CellGeometry, column: usize, row: usize, width: u32, height: u32) -> (r: (i64, i64))
    requires
        canvas_extent(geometry.cell_width as int, geometry.margin as int, column + 1) <= u32::MAX,
        canvas_extent(geometry.cell_height as int, geometry.margin as int, row + 1) <= u32::MAX,
    ensures
        r.0 == placement(geometry.cell_width as int, geometry.margin as int, column as int, width as int),
        r.1 == placement(geometry.cell_height as int, geometry.margin as int, row as int, height as int),
{
    let m = geometry.margin as i128;
    let cw = geometry.cell_width as i128;
    let ch = geometry.cell_height as i128;
    proof {
        assert((cw + m) * column <= (cw + m) * (column + 1)) by (nonlinear_arith)
            requires
                cw + m >= 0,
        ;
        assert((ch + m) * row <= (ch + m) * (row + 1)) by (nonlinear_arith)
            requires
                ch + m >= 0,
        ;
    }
    let cx = (cw + m) * (column as i128) + m + cw / 2;
    let cy = (ch + m) * (row as i128) + m + ch / 2;
    let x = cx - (width / 2) as i128;
    let y = cy - (height / 2) as i128;
    (x as i64, y as i64)
}

/// The largest width and the largest height among `sizes`, or `None` when empty.
pub fn max_dimensions(sizes: &Vec<(u32, u32)>) -> (r: Option<(u32, u32)>)
    ensures
        r is None <==> sizes@.len() == 0,
        r matches Some((w, h)) ==> w == max_width(sizes@) && h == max_height(sizes@),
{
    if sizes.len() == 0 {
        return None;
    }
    let mut w: u32 = 0;
    let mut h: u32 = 0;
    let mut i: usize = 0;
    while i < sizes.len()
        invariant
            i <= sizes@.len(),
            w == max_width(sizes@.subrange(0, i as int)),
            h == max_height(sizes@.subrange(0, i as int)),
        decreases sizes@.len() - i,
    {
        assert(sizes@.subrange(0, i + 1).drop_last() =~= sizes@.subrange(0, i as int));
        let (sw, sh) = sizes[i];
        if sw > w {
            w = sw;
        }
        if sh > h {
            h = sh;
        }
        i = i + 1;
    }
    assert(sizes@.subrange(0, i as int) =~= sizes@);
    Some((w, h))
}

/// Where every image of a mosaic goes, and how large the canvas is.
#[derive(Debug)]
pub struct Layout {
    pub shape: GridShape,
    pub geometry: CellGeometry,
    pub canvas_width: u32,
    pub canvas_height: u32,
    /// Top-left offset of each image, in the order of the images.
    pub offsets: Vec<(i64, i64)>,
}

/// Offset of the image at `index` of `sizes`, filled row by row into a grid
/// of `columns` columns.
pub open spec fn offset_of(geometry: CellGeometry, columns: int, sizes: Seq<(u32, u32)>, index: int) -> (i64, i64) {
    (
        placement(
            geometry.cell_width as int,
            geometry.margin as int,
            index % columns,
            sizes[index].0 as int,
        ) as i64,
        placement(
            geometry.cell_height as int,
            geometry.margin as int,
            index / columns,
            sizes[index].1 as int,
        ) as i64,
    )
}

/// `layout` is the mosaic layout of images of `sizes` with `margin` pixels of spacing.
pub open spec fn is_layout_of(sizes: Seq<(u32, u32)>, margin: u32, layout: Layout) -> bool {
    &&& is_grid_for(sizes.len() as int, layout.shape.columns as int, layout.shape.rows as int)
    &&& layout.geometry == CellGeometry {
        cell_width: max_width(sizes) as u32,
        cell_height: max_height(sizes) as u32,
        margin,
    }
    &&& layout.canvas_width == canvas_width_of(layout.shape, layout.geometry)
    &&& layout.canvas_height == canvas_height_of(layout.shape, layout.geometry)
    &&& canvas_fits(layout.canvas_width as int, layout.canvas_height as int)
    &&& layout.offsets@.len() == sizes.len()
    &&& forall|i: int|
        0 <= i < sizes.len() ==> #[trigger] layout.offsets@[i] == offset_of(
            layout.geometry,
            layout.shape.columns as int,
            sizes,
            i,
        )
}

/// The canvas for the grid of `sizes.len()` cells of the largest size in `sizes`
/// would be too large to make.
pub open spec fn canvas_too_large(sizes: Seq<(u32, u32)>, margin: u32, shape: GridShape) -> bool {
    !canvas_fits(
        canvas_extent(max_width(sizes), margin as int, shape.columns as int),
        canvas_extent(max_height(sizes), margin as int, shape.rows as int),
    )
}

proof fn lemma_extent_monotone(cell: int, margin: int, a: int, b: int)
    requires
        0 <= cell,
        0 <= margin,
        a <= b,
    ensures
        canvas_extent(cell, margin, a) <= canvas_extent(cell, margin, b),
{
    assert((cell + margin) * a <= (cell + margin) * b) by (nonlinear_arith)
        requires
            cell + margin >= 0,
            a <= b,
    ;
}

proof fn lemma_max_bounds(sizes: Seq<(u32, u32)>)
    ensures
        0 <= max_width(sizes) <= u32::MAX,
        0 <= max_height(sizes) <= u32::MAX,
        forall|i: int|
            #![trigger sizes[i]]
            0 <= i < sizes.len() ==> sizes[i].0 <= max_width(sizes) && sizes[i].1 <= max_height(
                sizes,
            ),
    decreases sizes.len(),
{
    if sizes.len() > 0 {
        lemma_max_bounds(sizes.drop_last());
        assert forall|i: int| #![trigger sizes[i]] 0 <= i < sizes.len() implies sizes[i].0 <= max_width(
            sizes,
        ) && sizes[i].1 <= max_height(sizes) by {
            if i < sizes.len() - 1 {
                assert(sizes[i] == sizes.drop_last()[i]);
            }
        }
    }
}

/// Lays out images of `sizes` in a near-square grid of equal cells, each as large
/// as the largest image, with `margin` pixels around and between the cells.
pub fn compute_layout(sizes: &Vec<(u32, u32)>, margin: u32) -> (r: Result<Layout, MosaicError>)
    ensures
        sizes@.len() == 0 <==> r matches Err(MosaicError::NoImagesFound),
        r matches Ok(layout) ==> is_layout_of(sizes@, margin, layout),
        r matches Err(e) ==> e == MosaicError::NoImagesFound || e == MosaicError::CanvasTooLarge,
        r matches Err(MosaicError::CanvasTooLarge) ==> sizes@.len() > 0 && forall|g: GridShape|
            is_grid_for(sizes@.len() as int, g.columns as int, g.rows as int) ==> canvas_too_large(
                sizes@,
                margin,
                g,
            ),
        sizes@.len() > 0 && (forall|g: GridShape|
            is_grid_for(sizes@.len() as int, g.columns as int, g.rows as int) ==> !canvas_too_large(
                sizes@,
                margin,
                g,
            )) ==> r is Ok,
{
    let n = sizes.len();
    let (cell_width, cell_height) = match max_dimensions(sizes) {
        Some(d) => d,
        None => return Err(MosaicError::NoImagesFound),
    };
    let shape = match plan(n) {
        Ok(g) => g,
        Err(e) => return Err(e),
    };
    proof {
        lemma_grid_unique(n as int, shape);
    }
    let geometry = CellGeometry { cell_width, cell_height, margin };
    let (canvas_width, canvas_height) = match canvas_size(shape, geometry) {
        Some(d) => d,
        None => {
            proof {
                assert(canvas_too_large(sizes@, margin, shape));
            }
            return Err(MosaicError::CanvasTooLarge);
        },
    };
    let columns = shape.columns;
    let mut offsets: Vec<(i64, i64)> = Vec::new();
    let mut i: usize = 0;
    while i < n
        invariant
            n == sizes@.len(),
            is_grid_for(n as int, columns as int, shape.rows as int),
            columns == shape.columns,
            geometry.cell_width == max_width(sizes@),
            geometry.cell_height == max_height(sizes@),
            geometry.margin == margin,
            canvas_width == canvas_width_of(shape, geometry),
            canvas_height == canvas_height_of(shape, geometry),
            canvas_fits(canvas_width as int, canvas_height as int),
            i <= n,
            offsets@.len() == i,
            forall|k: int|
                0 <= k < i ==> #[trigger] offsets@[k] == offset_of(geometry, columns as int, sizes@, k),
        decreases n - i,
    {
        let column = i % columns;
        let row = i / columns;
        proof {
            let c = columns as int;
            let rows = shape.rows as int;
            assert(row < rows) by (nonlinear_arith)
                requires
                    c * rows == n,
                    i < n,
                    c >= 1,
                    row as int == i as int / c,
            ;
            lemma_extent_monotone(geometry.cell_width as int, margin as int, column + 1, c);
            lemma_extent_monotone(geometry.cell_height as int, margin as int, row + 1, rows);
        }
        let (w, h) = sizes[i];
        let offset = placement_offset(geometry, column, row, w, h);
        offsets.push(offset);
        i = i + 1;
    }
    Ok(Layout { shape, geometry, canvas_width, canvas_height, offsets })
}

/// The grid for a count of cells is unique.
pub proof fn lemma_grid_unique(n: int, g: GridShape)
    requires
        is_grid_for(n, g.columns as int, g.rows as int),
    ensures
        forall|h: GridShape| is_grid_for(n, h.columns as int, h.rows as int) ==> h == g,
{
    assert forall|h: GridShape| is_grid_for(n, h.columns as int, h.rows as int) implies h == g by {
        assert(is_low_factor(n, h.rows as int));
        assert(is_low_factor(n, g.rows as int));
        assert(h.rows == g.rows);
        let r = g.rows as int;
        assert(h.columns == g.columns) by (nonlinear_arith)
            requires
                h.columns * r == n,
                g.columns * r == n,
                r >= 1,
        ;
    }
}

/// Coordinate, along one axis, where the cell at `index` begins.
pub open spec fn cell_origin(cell: int, margin: int, index: int) -> int {
    (cell + margin) * index + margin
}

/// Along one axis: an image no longer than its cell, centered in a cell of a
/// row of `count` cells, starts and ends within that cell and within the canvas.
pub proof fn lemma_centered_within_cell(cell: int, margin: int, index: int, count: int, size: int)
    requires
        0 <= size <= cell,
        0 <= margin,
        0 <= index < count,
    ensures
        placement(cell, margin, index, size) == cell_center(cell, margin, index) - size / 2,
        cell_origin(cell, margin, index) <= placement(cell, margin, index, size),
        placement(cell, margin, index, size) + size <= cell_origin(cell, margin, index) + cell,
        cell_origin(cell, margin, index) + cell + margin <= canvas_extent(cell, margin, count),
        0 <= placement(cell, margin, index, size),
{
    lemma_extent_monotone(cell, margin, index + 1, count);
    assert((cell + margin) * (index + 1) == (cell + margin) * index + cell + margin) by (nonlinear_arith);
    assert((cell + margin) * index >= 0) by (nonlinear_arith)
        requires
            cell + margin >= 0,
            index >= 0,
    ;
}

/// The image at position `i` of a layout lies within its cell, at column
/// `i % columns` and row `i / columns`, and within the canvas.
pub open spec fn lies_within_cell(sizes: Seq<(u32, u32)>, layout: Layout, i: int) -> bool {
    let x = layout.offsets@[i].0 as int;
    let y = layout.offsets@[i].1 as int;
    let g = layout.geometry;
    let m = g.margin as int;
    let c = layout.shape.columns as int;
    &&& i / c < layout.shape.rows
    &&& cell_origin(g.cell_width as int, m, i % c) <= x
    &&& x + sizes[i].0 <= cell_origin(g.cell_width as int, m, i % c) + g.cell_width
    &&& cell_origin(g.cell_height as int, m, i / c) <= y
    &&& y + sizes[i].1 <= cell_origin(g.cell_height as int, m, i / c) + g.cell_height
    &&& 0 <= x && x + sizes[i].0 <= layout.canvas_width
    &&& 0 <= y && y + sizes[i].1 <= layout.canvas_height
}

/// Every image of a layout lies within its own cell, and so within the canvas.
pub proof fn lemma_images_within_cells(sizes: Seq<(u32, u32)>, margin: u32, layout: Layout)
    requires
        is_layout_of(sizes, margin, layout),
    ensures
        forall|i: int| 0 <= i < sizes.len() ==> #[trigger] lies_within_cell(sizes, layout, i),
{
    lemma_max_bounds(sizes);
    let g = layout.geometry;
    let c = layout.shape.columns as int;
    let rows = layout.shape.rows as int;
    let m = margin as int;
    assert forall|i: int| 0 <= i < sizes.len() implies #[trigger] lies_within_cell(sizes, layout, i) by {
        assert(sizes[i].0 <= max_width(sizes) && sizes[i].1 <= max_height(sizes));
        assert(layout.offsets@[i] == offset_of(g, c, sizes, i));
        let n = sizes.len() as int;
        assert(0 <= i % c < c && 0 <= i / c < rows) by (nonlinear_arith)
            requires
                c * rows == n,
                0 <= i < n,
                c >= 1,
        ;
        lemma_centered_within_cell(g.cell_width as int, m, i % c, c, sizes[i].0 as int);
        lemma_centered_within_cell(g.cell_height as int, m, i / c, rows, sizes[i].1 as int);
    }
}

/// The layout is a function of the image sizes and the margin: laying out the
/// same images twice with the same margin gives the same layout.
pub proof fn lemma_layout_deterministic(sizes: Seq<(u32, u32)>, margin: u32, a: Layout, b: Layout)
    requires
        is_layout_of(sizes, margin, a),
        is_layout_of(sizes, margin, b),
    ensures
        a.shape == b.shape,
        a.geometry == b.geometry,
        a.canvas_width == b.canvas_width,
        a.canvas_height == b.canvas_height,
        a.offsets@ == b.offsets@,
{
    lemma_grid_unique(sizes.len() as int, a.shape);
    assert(a.offsets@ =~= b.offsets@);
}

} // verus!
