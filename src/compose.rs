use vstd::prelude::*;

use crate::error::MosaicError;
use crate::grid::{is_grid_for, GridShape};
use crate::layout::{
    canvas_fits,
    canvas_too_large,
    compute_layout,
    is_layout_of,
    lemma_layout_deterministic,
    Layout,
};

verus! {

#[verifier::external_type_specification]
#[verifier::external_body]
pub struct ExDynamicImage(image::DynamicImage);

/// Width and height of an image.
pub uninterp spec fn dims_of(image: image::DynamicImage) -> (u32, u32);

/// Size that the image crate gives an image of `width` by `height` scaled, aspect
/// ratio kept, to the largest size within `max_width` by `max_height`.
pub uninterp spec fn fitted_size(width: u32, height: u32, max_width: u32, max_height: u32) -> (u32, u32);

/// A fully transparent RGBA image of the given size.
pub uninterp spec fn blank_rgba(width: u32, height: u32) -> image::DynamicImage;

/// `bottom` with `top` drawn onto it with its top-left corner at `(x, y)`.
pub uninterp spec fn overlaid(
    bottom: image::DynamicImage,
    top: image::DynamicImage,
    x: i64,
    y: i64,
) -> image::DynamicImage;

/// `n`, or one where `n` is zero: the least side that scaling produces.
pub open spec fn at_least_one(n: u32) -> int {
    if n == 0 {
        1
    } else {
        n as int
    }
}

/// The image has no side of length zero, so scaling applies to it.
pub open spec fn has_area(image: image::DynamicImage) -> bool {
    dims_of(image).0 != 0 && dims_of(image).1 != 0
}

/// Scaling the image into `max_width` by `max_height` fits in memory: the
/// intermediate buffer of 32-bit float RGBA samples, as wide as the source and
/// as high as the target, and the target itself.
pub open spec fn can_resize(image: image::DynamicImage, max_width: u32, max_height: u32) -> bool {
    &&& has_area(image)
    &&& 16 * (dims_of(image).0 * at_least_one(max_height)) <= isize::MAX
    &&& 16 * (at_least_one(max_width) * at_least_one(max_height)) <= isize::MAX
}

/// Relies on `GenericImageView::dimensions` of the image crate: the width and
/// height of the image.
#[verifier::external_body]
fn image_size(image: &image::DynamicImage) -> (r: (u32, u32))
    ensures
        r == dims_of(*image),
{
    image::GenericImageView::dimensions(image)
}

/// Relies on `DynamicImage::resize` of the image crate: the image scaled with the
/// Lanczos filter, aspect ratio kept, to the largest size within the bounds,
/// each side at least one pixel. Only the size of the result is stated: its
/// pixels come from floating-point filter weights.
#[verifier::external_body]
fn resize_within(image: &image::DynamicImage, max_width: u32, max_height: u32) -> (r: image::DynamicImage)
    requires
        can_resize(*image, max_width, max_height),
    ensures
        dims_of(r) == fitted_size(dims_of(*image).0, dims_of(*image).1, max_width, max_height),
        1 <= dims_of(r).0 <= at_least_one(max_width),
        1 <= dims_of(r).1 <= at_least_one(max_height),
{
    image.resize(max_width, max_height, image::imageops::FilterType::Lanczos3)
}

/// Relies on `DynamicImage::new_rgba8` of the image crate: a fully transparent
/// RGBA canvas of the given size, which panics only when its buffer length
/// overflows.
#[verifier::external_body]
fn blank_canvas(width: u32, height: u32) -> (r: image::DynamicImage)
    requires
        canvas_fits(width as int, height as int),
    ensures
        r == blank_rgba(width, height),
        dims_of(r) == (width, height),
{
    image::DynamicImage::new_rgba8(width, height)
}

/// Relies on `imageops::overlay` of the image crate: draws `top` onto `canvas`
/// with its top-left corner at `(x, y)`, blending by alpha and cropping what
/// falls outside the canvas, whose size stays the same.
#[verifier::external_body]
fn overlay_at(canvas: &mut image::DynamicImage, top: &image::DynamicImage, x: i64, y: i64)
    ensures
        *final(canvas) == overlaid(*old(canvas), *top, x, y),
        dims_of(*final(canvas)) == dims_of(*old(canvas)),
{
    image::imageops::overlay(canvas, top, x, y)
}

/// Options of a mosaic run.
#[derive(Debug, Clone, Copy)]
pub struct MosaicConfig {
    /// Bounding box that every image is scaled to before placement, if any.
    pub bound: Option<(u32, u32)>,
    /// Pixels of spacing around and between the cells.
    pub margin: u32,
}

/// A composited mosaic with the images as placed, their sizes and their layout.
pub struct Mosaic {
    pub canvas: image::DynamicImage,
    pub images: Vec<image::DynamicImage>,
    pub sizes: Vec<(u32, u32)>,
    pub layout: Layout,
}

/// `after` is `before` as it is placed: scaled into the bounding box when there
/// is one and `before` has no empty side, else unchanged.
pub open spec fn is_scaled(before: image::DynamicImage, after: image::DynamicImage, bound: Option<(u32, u32)>) -> bool {
    match bound {
        Some((w, h)) => if has_area(before) {
            dims_of(after) == fitted_size(dims_of(before).0, dims_of(before).1, w, h)
        } else {
            after == before
        },
        None => after == before,
    }
}

/// Each of `after` is the image at the same position of `before` as it is placed.
pub open spec fn all_scaled(
    before: Seq<image::DynamicImage>,
    after: Seq<image::DynamicImage>,
    bound: Option<(u32, u32)>,
) -> bool {
    &&& after.len() == before.len()
    &&& forall|i: int| 0 <= i < before.len() ==> #[trigger] is_scaled(before[i], after[i], bound)
}

/// Size of `image` once it is placed under `bound`.
pub open spec fn placed_size(image: image::DynamicImage, bound: Option<(u32, u32)>) -> (u32, u32) {
    match bound {
        Some((w, h)) => if has_area(image) {
            fitted_size(dims_of(image).0, dims_of(image).1, w, h)
        } else {
            dims_of(image)
        },
        None => dims_of(image),
    }
}

/// The sizes of `images` once they are placed under `bound`, in order.
pub open spec fn placed_sizes(images: Seq<image::DynamicImage>, bound: Option<(u32, u32)>) -> Seq<(u32, u32)> {
    Seq::new(images.len(), |i: int| placed_size(images[i], bound))
}

/// The sizes of `images`, in order.
pub open spec fn sizes_of(images: Seq<image::DynamicImage>) -> Seq<(u32, u32)> {
    Seq::new(images.len(), |i: int| dims_of(images[i]))
}

/// Every image with no empty side can be scaled into `max_width` by `max_height`.
pub open spec fn all_resizable(images: Seq<image::DynamicImage>, max_width: u32, max_height: u32) -> bool {
    forall|i: int|
        0 <= i < images.len() && has_area(#[trigger] images[i]) ==> can_resize(
            images[i],
            max_width,
            max_height,
        )
}

/// Scaling to the configured bound, if any, fits in memory for every image.
pub open spec fn scaling_fits(images: Seq<image::DynamicImage>, bound: Option<(u32, u32)>) -> bool {
    match bound {
        Some((w, h)) => all_resizable(images, w, h),
        None => true,
    }
}

/// `canvas` with the first `count` of `images` drawn onto it in order, the
/// image at `i` with its top-left corner at `offsets[i]`.
pub open spec fn overlay_all(
    canvas: image::DynamicImage,
    images: Seq<image::DynamicImage>,
    offsets: Seq<(i64, i64)>,
    count: int,
) -> image::DynamicImage
    decreases count,
{
    if count <= 0 {
        canvas
    } else {
        let below = overlay_all(canvas, images, offsets, count - 1);
        overlaid(below, images[count - 1], offsets[count - 1].0, offsets[count - 1].1)
    }
}

/// `mosaic` is the mosaic of the images `placed`, as they are placed, with
/// `margin` pixels of spacing.
pub open spec fn is_mosaic_of(placed: Seq<image::DynamicImage>, margin: u32, mosaic: Mosaic) -> bool {
    &&& mosaic.images@ == placed
    &&& mosaic.sizes@ == sizes_of(placed)
    &&& is_layout_of(mosaic.sizes@, margin, mosaic.layout)
    &&& mosaic.canvas == overlay_all(
        blank_rgba(mosaic.layout.canvas_width, mosaic.layout.canvas_height),
        placed,
        mosaic.layout.offsets@,
        placed.len() as int,
    )
    &&& dims_of(mosaic.canvas) == (mosaic.layout.canvas_width, mosaic.layout.canvas_height)
}

/// Scales every image with no empty side to fit within `max_width` by
/// `max_height`, keeping its aspect ratio and the order of the images. Fails,
/// changing nothing, when scaling some image would not fit in memory.
pub fn normalize(images: &mut Vec<image::DynamicImage>, max_width: u32, max_height: u32) -> (r: Result<
    (),
    MosaicError,
>)
    ensures
        r is Ok <==> all_resizable(old(images)@, max_width, max_height),
        r is Err ==> r == Err::<(), MosaicError>(MosaicError::ImageTooLarge) && final(images)@ == old(
            images,
        )@,
        r is Ok ==> all_scaled(old(images)@, final(images)@, Some((max_width, max_height))),
        r is Ok ==> forall|i: int|
            0 <= i < final(images)@.len() && has_area(old(images)@[i]) ==> {
                let d = #[trigger] dims_of(final(images)@[i]);
                1 <= d.0 <= at_least_one(max_width) && 1 <= d.1 <= at_least_one(max_height)
            },
{
    let n = images.len();
    let mut i: usize = 0;
    while i < n
        invariant
            n == images@.len(),
            i <= n,
            forall|k: int|
                0 <= k < i && has_area(#[trigger] images@[k]) ==> can_resize(
                    images@[k],
                    max_width,
                    max_height,
                ),
        decreases n - i,
    {
        let (w, h) = image_size(&images[i]);
        if w != 0 && h != 0 {
            let mh: u128 = if max_height == 0 {
                1
            } else {
                max_height as u128
            };
            let mw: u128 = if max_width == 0 {
                1
            } else {
                max_width as u128
            };
            proof {
                assert(w * mh <= 0xffff_ffff * 0xffff_ffff) by (nonlinear_arith)
                    requires
                        w <= 0xffff_ffff,
                        mh <= 0xffff_ffff,
                ;
                assert(mw * mh <= 0xffff_ffff * 0xffff_ffff) by (nonlinear_arith)
                    requires
                        mw <= 0xffff_ffff,
                        mh <= 0xffff_ffff,
                ;
            }
            if 16 * (w as u128 * mh) > isize::MAX as u128 || 16 * (mw * mh) > isize::MAX as u128 {
                return Err(MosaicError::ImageTooLarge);
            }
        }
        i = i + 1;
    }
    let ghost before = images@;
    let mut j: usize = 0;
    while j < n
        invariant
            n == images@.len(),
            n == before.len(),
            j <= n,
            all_resizable(before, max_width, max_height),
            forall|k: int| j <= k < n ==> #[trigger] images@[k] == before[k],
            forall|k: int|
                0 <= k < j ==> #[trigger] is_scaled(before[k], images@[k], Some((max_width, max_height))),
            forall|k: int|
                0 <= k < j && has_area(before[k]) ==> {
                    let d = #[trigger] dims_of(images@[k]);
                    1 <= d.0 <= at_least_one(max_width) && 1 <= d.1 <= at_least_one(max_height)
                },
        decreases n - j,
    {
        let (w, h) = image_size(&images[j]);
        if w != 0 && h != 0 {
            assert(has_area(before[j as int]));
            let scaled_image = resize_within(&images[j], max_width, max_height);
            images[j] = scaled_image;
        }
        j = j + 1;
    }
    assert(forall|k: int| 0 <= k < n ==> #[trigger] is_scaled(before[k], images@[k], Some((max_width, max_height))));
    Ok(())
}

/// The width and height of each image, in order.
pub fn image_sizes(images: &Vec<image::DynamicImage>) -> (r: Vec<(u32, u32)>)
    ensures
        r@ == sizes_of(images@),
{
    let mut sizes: Vec<(u32, u32)> = Vec::new();
    let mut i: usize = 0;
    while i < images.len()
        invariant
            i <= images@.len(),
            sizes@.len() == i,
            forall|k: int| 0 <= k < i ==> #[trigger] sizes@[k] == dims_of(images@[k]),
        decreases images@.len() - i,
    {
        sizes.push(image_size(&images[i]));
        i = i + 1;
    }
    assert(sizes@ =~= sizes_of(images@));
    sizes
}

/// Draws every image onto a fresh transparent canvas of the layout's size, in
/// order, the image at position `i` with its top-left corner at `layout.offsets[i]`.
pub fn compose(images: &Vec<image::DynamicImage>, layout: &Layout) -> (r: image::DynamicImage)
    requires
        canvas_fits(layout.canvas_width as int, layout.canvas_height as int),
        images@.len() <= layout.offsets@.len(),
    ensures
        r == overlay_all(
            blank_rgba(layout.canvas_width, layout.canvas_height),
            images@,
            layout.offsets@,
            images@.len() as int,
        ),
        dims_of(r) == (layout.canvas_width, layout.canvas_height),
{
    let mut canvas = blank_canvas(layout.canvas_width, layout.canvas_height);
    let mut i: usize = 0;
    while i < images.len()
        invariant
            i <= images@.len(),
            images@.len() <= layout.offsets@.len(),
            canvas == overlay_all(
                blank_rgba(layout.canvas_width, layout.canvas_height),
                images@,
                layout.offsets@,
                i as int,
            ),
            dims_of(canvas) == (layout.canvas_width, layout.canvas_height),
        decreases images@.len() - i,
    {
        let (x, y) = layout.offsets[i];
        overlay_at(&mut canvas, &images[i], x, y);
        i = i + 1;
    }
    canvas
}

/// Makes the mosaic of `images`, placed as they are, in their order: lays them
/// out in a near-square grid of cells as large as the largest image, and draws
/// each centered in its cell onto a transparent canvas.
pub fn assemble(images: Vec<image::DynamicImage>, margin: u32) -> (r: Result<Mosaic, MosaicError>)
    ensures
        images@.len() == 0 <==> r matches Err(MosaicError::NoImagesFound),
        r matches Err(e) ==> e == MosaicError::NoImagesFound || e == MosaicError::CanvasTooLarge,
        r matches Err(MosaicError::CanvasTooLarge) ==> forall|g: GridShape|
            is_grid_for(images@.len() as int, g.columns as int, g.rows as int) ==> canvas_too_large(
                sizes_of(images@),
                margin,
                g,
            ),
        r matches Ok(m) ==> is_mosaic_of(images@, margin, m),
        images@.len() > 0 && (forall|g: GridShape|
            is_grid_for(images@.len() as int, g.columns as int, g.rows as int) ==> !canvas_too_large(
                sizes_of(images@),
                margin,
                g,
            )) ==> r is Ok,
{
    let sizes = image_sizes(&images);
    let layout = match compute_layout(&sizes, margin) {
        Ok(l) => l,
        Err(e) => return Err(e),
    };
    let canvas = compose(&images, &layout);
    Ok(Mosaic { canvas, images, sizes, layout })
}

/// Makes the mosaic of `images` in their order: scales them to the configured
/// bound, then assembles them.
pub fn build_mosaic(images: Vec<image::DynamicImage>, config: MosaicConfig) -> (r: Result<Mosaic, MosaicError>)
    ensures
        images@.len() == 0 <==> r matches Err(MosaicError::NoImagesFound),
        !scaling_fits(images@, config.bound) <==> r matches Err(MosaicError::ImageTooLarge),
        r matches Err(e) ==> e == MosaicError::NoImagesFound || e == MosaicError::CanvasTooLarge
            || e == MosaicError::ImageTooLarge,
        r matches Err(MosaicError::CanvasTooLarge) ==> forall|g: GridShape|
            is_grid_for(images@.len() as int, g.columns as int, g.rows as int) ==> canvas_too_large(
                placed_sizes(images@, config.bound),
                config.margin,
                g,
            ),
        r matches Ok(m) ==> all_scaled(images@, m.images@, config.bound) && is_mosaic_of(
            m.images@,
            config.margin,
            m,
        ),
        images@.len() > 0 && scaling_fits(images@, config.bound) && (forall|g: GridShape|
            is_grid_for(images@.len() as int, g.columns as int, g.rows as int) ==> !canvas_too_large(
                placed_sizes(images@, config.bound),
                config.margin,
                g,
            )) ==> r is Ok,
{
    let ghost original = images@;
    let mut images = images;
    if let Some((w, h)) = config.bound {
        if let Err(e) = normalize(&mut images, w, h) {
            return Err(e);
        }
    }
    assert(all_scaled(original, images@, config.bound));
    assert(sizes_of(images@) =~= placed_sizes(original, config.bound)) by {
        assert forall|i: int| 0 <= i < original.len() implies sizes_of(images@)[i] == placed_sizes(
            original,
            config.bound,
        )[i] by {
            assert(is_scaled(original[i], images@[i], config.bound));
        }
    }
    assemble(images, config.margin)
}

/// Making the mosaic of the same placed images twice with the same margin gives
/// the same canvas, sizes and layout.
pub proof fn lemma_mosaic_deterministic(placed: Seq<image::DynamicImage>, margin: u32, a: Mosaic, b: Mosaic)
    requires
        is_mosaic_of(placed, margin, a),
        is_mosaic_of(placed, margin, b),
    ensures
        a.canvas == b.canvas,
        a.sizes@ == b.sizes@,
        a.layout.shape == b.layout.shape,
        a.layout.geometry == b.layout.geometry,
        a.layout.offsets@ == b.layout.offsets@,
{
    lemma_layout_deterministic(a.sizes@, margin, a.layout, b.layout);
}

} // verus!
